//! Paths as `/`-separated text: the final component, its stem and extension,
//! and the replacement of the final component. Trailing separators and `.`
//! components that follow a separator do not count: the final component of
//! `a/b/` and of `b/.` is `b`.
use vstd::prelude::*;
use crate::text::{chars_of, copy_range, string_of};

verus! {

/// The position of the last `c` in `s`, or -1 where `s` holds none.
pub open spec fn last_index_of(s: Seq<char>, c: char) -> int
    decreases s.len(),
{
    if s.len() == 0 {
        -1
    } else if s.last() == c {
        s.len() - 1
    } else {
        last_index_of(s.drop_last(), c)
    }
}

/// The length of `p` once trailing `/` and trailing `/.` are taken off, as
/// often as they occur.
pub open spec fn tail_end(p: Seq<char>) -> int
    decreases p.len(),
{
    if p.len() > 0 && p.last() == '/' {
        tail_end(p.drop_last())
    } else if p.len() >= 2 && p.last() == '.' && p[p.len() - 2] == '/' {
        tail_end(p.drop_last())
    } else {
        p.len() as int
    }
}

/// `p` without trailing separators and trailing `.` components.
pub open spec fn base(p: Seq<char>) -> Seq<char> {
    p.subrange(0, tail_end(p))
}

/// Where the final component of `p` starts: just after the last `/` of its base.
pub open spec fn name_start(p: Seq<char>) -> int {
    last_index_of(base(p), '/') + 1
}

/// The final component of `p`.
pub open spec fn final_component(p: Seq<char>) -> Seq<char> {
    base(p).subrange(name_start(p), base(p).len() as int)
}

/// Everything of the base of `p` before its final component, the last `/`
/// included.
pub open spec fn dir_part(p: Seq<char>) -> Seq<char> {
    base(p).subrange(0, name_start(p))
}

/// The two paths name the same file once trailing separators and `.`
/// components are set aside.
pub open spec fn same_path(a: Seq<char>, b: Seq<char>) -> bool {
    base(a) == base(b)
}

proof fn lemma_tail_end_bounds(p: Seq<char>)
    ensures
        0 <= tail_end(p) <= p.len(),
    decreases p.len(),
{
    if p.len() > 0 && (p.last() == '/' || (p.len() >= 2 && p.last() == '.' && p[p.len() - 2]
        == '/')) {
        lemma_tail_end_bounds(p.drop_last());
    }
}

/// Taking the trailing separators and `.` components off twice changes
/// nothing more.
pub proof fn lemma_base_idempotent(p: Seq<char>)
    ensures
        base(base(p)) == base(p),
    decreases p.len(),
{
    lemma_tail_end_bounds(p);
    if p.len() > 0 && (p.last() == '/' || (p.len() >= 2 && p.last() == '.' && p[p.len() - 2]
        == '/')) {
        let q = p.drop_last();
        lemma_base_idempotent(q);
        lemma_tail_end_bounds(q);
        assert(base(p) =~= base(q));
    } else {
        assert(base(p) =~= p);
    }
}

/// The length of the base of `p`.
fn tail_end_exec(p: &Vec<char>) -> (r: usize)
    ensures
        r as int == tail_end(p@),
        r <= p@.len(),
{
    let mut k: usize = p.len();
    assert(p@.subrange(0, k as int) =~= p@);
    while k > 0 && (p[k - 1] == '/' || (k >= 2 && p[k - 1] == '.' && p[k - 2] == '/'))
        invariant
            k <= p@.len(),
            tail_end(p@.subrange(0, k as int)) == tail_end(p@),
        decreases k,
    {
        assert(p@.subrange(0, k as int).drop_last() =~= p@.subrange(0, k - 1));
        k = k - 1;
    }
    k
}

/// The base of `path`.
fn base_exec(path: &str) -> (r: Vec<char>)
    ensures
        r@ == base(path@),
{
    let p = chars_of(path);
    let end = tail_end_exec(&p);
    copy_range(&p, 0, end)
}

/// Tells whether the two paths name the same file, trailing separators and
/// `.` components set aside.
pub fn same_path_exec(a: &str, b: &str) -> (r: bool)
    ensures
        r == same_path(a@, b@),
{
    let x = base_exec(a);
    let y = base_exec(b);
    if x.len() != y.len() {
        return false;
    }
    let mut k: usize = 0;
    while k < x.len()
        invariant
            x@ == base(a@),
            y@ == base(b@),
            x@.len() == y@.len(),
            k <= x@.len(),
            forall|j: int| 0 <= j < k ==> x@[j] == y@[j],
        decreases x@.len() - k,
    {
        if x[k] != y[k] {
            assert(x@[k as int] != y@[k as int]);
            return false;
        }
        k = k + 1;
    }
    assert(x@ =~= y@);
    true
}

/// A final component that names a file: not empty, `.` or `..`.
pub open spec fn is_file_name(n: Seq<char>) -> bool {
    n.len() > 0 && n != seq!['.'] && n != seq!['.', '.']
}

/// The name carries an extension: it holds a `.` after its first character.
pub open spec fn has_extension(n: Seq<char>) -> bool {
    last_index_of(n, '.') > 0
}

/// The name up to its last `.`, where it carries an extension; else the whole name.
pub open spec fn stem_of(n: Seq<char>) -> Seq<char> {
    if has_extension(n) {
        n.subrange(0, last_index_of(n, '.'))
    } else {
        n
    }
}

/// The text after the last `.` of a name that carries an extension.
pub open spec fn extension_of(n: Seq<char>) -> Seq<char> {
    n.subrange(last_index_of(n, '.') + 1, n.len() as int)
}

/// The editable name of `p`: its final component, or that component's stem
/// where extensions are not edited; none where `p` names no file.
pub open spec fn name_of(p: Seq<char>, include_extensions: bool) -> Option<Seq<char>> {
    if !is_file_name(final_component(p)) {
        None
    } else if include_extensions {
        Some(final_component(p))
    } else {
        Some(stem_of(final_component(p)))
    }
}

/// The file name formed from an edited name: the name itself, or, where
/// extensions are not edited, the name with the extension of `original`
/// put back.
pub open spec fn new_file_name(original: Seq<char>, edited: Seq<char>, include_extensions: bool) -> Seq<char> {
    if include_extensions || !has_extension(original) {
        edited
    } else {
        edited + seq!['.'] + extension_of(original)
    }
}

/// `p` with its final component replaced by the file name formed from `edited`.
pub open spec fn target_for(p: Seq<char>, edited: Seq<char>, include_extensions: bool) -> Seq<char> {
    dir_part(p) + new_file_name(final_component(p), edited, include_extensions)
}

proof fn lemma_name_round_trip(n: Seq<char>, include_extensions: bool)
    ensures
        new_file_name(n, if include_extensions { n } else { stem_of(n) }, include_extensions) == n,
{
    if !include_extensions && has_extension(n) {
        lemma_last_index_bounds(n, '.');
        let d = last_index_of(n, '.');
        assert(n.subrange(0, d) + seq!['.'] + n.subrange(d + 1, n.len() as int) =~= n);
    }
}

/// Putting back the name that was extracted from a path gives the path itself,
/// without trailing separators and `.` components.
pub proof fn lemma_unchanged_name_keeps_path(p: Seq<char>, include_extensions: bool)
    requires
        name_of(p, include_extensions) is Some,
    ensures
        target_for(p, name_of(p, include_extensions)->Some_0, include_extensions) == base(p),
        same_path(target_for(p, name_of(p, include_extensions)->Some_0, include_extensions), p),
{
    let b = base(p);
    let n = final_component(p);
    lemma_tail_end_bounds(p);
    lemma_base_idempotent(p);
    lemma_last_index_bounds(b, '/');
    lemma_name_round_trip(n, include_extensions);
    assert(name_of(p, include_extensions)->Some_0 == if include_extensions { n } else { stem_of(n) });
    assert(dir_part(p) + n =~= b);
}

proof fn lemma_last_index_of(s: Seq<char>, c: char, k: int)
    requires
        -1 <= k < s.len(),
        k >= 0 ==> s[k] == c,
        forall|j: int| k < j < s.len() ==> s[j] != c,
    ensures
        last_index_of(s, c) == k,
    decreases s.len(),
{
    if s.len() > 0 && k < s.len() - 1 {
        lemma_last_index_of(s.drop_last(), c, k);
    }
}

proof fn lemma_last_index_bounds(s: Seq<char>, c: char)
    ensures
        -1 <= last_index_of(s, c) < s.len(),
        last_index_of(s, c) >= 0 ==> s[last_index_of(s, c)] == c,
    decreases s.len(),
{
    if s.len() > 0 && s.last() != c {
        lemma_last_index_bounds(s.drop_last(), c);
    }
}

/// The position of the last `c` in `s`, if any.
fn last_index(s: &Vec<char>, c: char) -> (r: Option<usize>)
    ensures
        match r {
            Some(k) => last_index_of(s@, c) == k as int && k < s@.len(),
            None => last_index_of(s@, c) == -1,
        },
{
    let mut k: usize = s.len();
    while k > 0 && s[k - 1] != c
        invariant
            k <= s@.len(),
            forall|j: int| k <= j < s@.len() ==> s@[j] != c,
        decreases k,
    {
        k = k - 1;
    }
    if k == 0 {
        proof {
            lemma_last_index_of(s@, c, -1);
        }
        None
    } else {
        proof {
            lemma_last_index_of(s@, c, k - 1);
        }
        Some(k - 1)
    }
}

fn name_start_exec(p: &Vec<char>) -> (r: usize)
    ensures
        r as int == last_index_of(p@, '/') + 1,
        r <= p@.len(),
{
    proof {
        lemma_last_index_bounds(p@, '/');
    }
    let n: usize = p.len();
    match last_index(p, '/') {
        Some(k) => {
            assert(k < n);
            k + 1
        },
        None => 0,
    }
}

fn is_file_name_exec(n: &Vec<char>) -> (r: bool)
    ensures
        r == is_file_name(n@),
{
    if n.len() == 0 {
        false
    } else if n.len() == 1 {
        if n[0] == '.' {
            assert(n@ =~= seq!['.']);
            false
        } else {
            assert(n@ != seq!['.', '.']);
            assert(n@[0] != seq!['.'][0]);
            true
        }
    } else if n.len() == 2 {
        if n[0] == '.' && n[1] == '.' {
            assert(n@ =~= seq!['.', '.']);
            false
        } else {
            assert(n@ != seq!['.']);
            if n[0] != '.' {
                assert(n@[0] != seq!['.', '.'][0]);
            } else {
                assert(n@[1] != seq!['.', '.'][1]);
            }
            true
        }
    } else {
        assert(n@.len() != seq!['.'].len());
        assert(n@.len() != seq!['.', '.'].len());
        true
    }
}

/// The editable name of `path`: its final component where `include_extensions`
/// holds, else that component without its extension. `None` where the final
/// component is empty, `.` or `..`.
pub fn extract_name(path: &str, include_extensions: bool) -> (r: Option<String>)
    ensures
        match r {
            Some(n) => name_of(path@, include_extensions) == Some(n@),
            None => name_of(path@, include_extensions) is None,
        },
{
    let p = base_exec(path);
    let start = name_start_exec(&p);
    let name = copy_range(&p, start, p.len());
    if !is_file_name_exec(&name) {
        return None;
    }
    if include_extensions {
        Some(string_of(name.as_slice()))
    } else {
        proof {
            lemma_last_index_bounds(name@, '.');
        }
        match last_index(&name, '.') {
            Some(d) => {
                if d > 0 {
                    let stem = copy_range(&name, 0, d);
                    Some(string_of(stem.as_slice()))
                } else {
                    Some(string_of(name.as_slice()))
                }
            },
            None => Some(string_of(name.as_slice())),
        }
    }
}

/// `path` with its final component replaced by `edited`, to which the
/// extension of the original final component is added back where
/// `include_extensions` does not hold.
pub fn target_path(path: &str, edited: &str, include_extensions: bool) -> (r: String)
    ensures
        r@ == target_for(path@, edited@, include_extensions),
{
    let p = base_exec(path);
    let start = name_start_exec(&p);
    let mut out = copy_range(&p, 0, start);
    let name = copy_range(&p, start, p.len());
    let e = chars_of(edited);
    let ghost dir = out@;
    let mut k: usize = 0;
    while k < e.len()
        invariant
            k <= e@.len(),
            out@ == dir + e@.subrange(0, k as int),
        decreases e@.len() - k,
    {
        out.push(e[k]);
        k = k + 1;
        assert(out@ =~= dir + e@.subrange(0, k as int));
    }
    assert(e@.subrange(0, k as int) =~= e@);
    if !include_extensions {
        proof {
            lemma_last_index_bounds(name@, '.');
        }
        match last_index(&name, '.') {
            Some(d) => {
                if d > 0 {
                    let ghost mid = out@;
                    let mut m: usize = d;
                    while m < name.len()
                        invariant
                            d <= m <= name@.len(),
                            out@ == mid + name@.subrange(d as int, m as int),
                        decreases name@.len() - m,
                    {
                        out.push(name[m]);
                        m = m + 1;
                        assert(out@ =~= mid + name@.subrange(d as int, m as int));
                    }
                    assert(name@.subrange(d as int, m as int) =~= seq!['.'] + extension_of(name@));
                    assert(out@ =~= target_for(path@, edited@, include_extensions));
                }
            },
            None => {},
        }
    }
    string_of(out.as_slice())
}

} // verus!
