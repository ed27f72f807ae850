use vstd::prelude::*;

verus! {

pub open spec fn seqs_view(v: Seq<Vec<char>>) -> Seq<Seq<char>> {
    v.map_values(|c: Vec<char>| c@)
}

/// The characters of a string, in order.
pub fn chars_of(s: &str) -> (r: Vec<char>)
    ensures
        r@ == s@,
{
    let n = s.unicode_len();
    let mut r: Vec<char> = Vec::new();
    let mut i: usize = 0;
    while i < n
        invariant
            n == s@.len(),
            i <= n,
            r@ =~= s@.subrange(0, i as int),
        decreases n - i,
    {
        r.push(s.get_char(i));
        i = i + 1;
    }
    r
}

/// Relies on `String: FromIterator<char>`: the string holds the collected
/// characters, in order.
#[verifier::external_body]
pub(crate) fn string_of(v: &Vec<char>) -> (r: String)
    ensures
        r@ == v@,
{
    v.iter().collect()
}

/// Appends all of `src` to `dst`.
pub(crate) fn push_all(dst: &mut Vec<char>, src: &Vec<char>)
    ensures
        final(dst)@ == old(dst)@ + src@,
{
    let ghost start = dst@;
    let n = src.len();
    let mut i: usize = 0;
    while i < n
        invariant
            n == src@.len(),
            i <= n,
            dst@ =~= start + src@.subrange(0, i as int),
        decreases n - i,
    {
        dst.push(src[i]);
        i = i + 1;
    }
    assert(src@.subrange(0, n as int) =~= src@);
}

/// The characters of `v` from `from` up to `to`.
pub(crate) fn slice_chars(v: &Vec<char>, from: usize, to: usize) -> (r: Vec<char>)
    requires
        from <= to <= v@.len(),
    ensures
        r@ == v@.subrange(from as int, to as int),
{
    let mut r: Vec<char> = Vec::new();
    let mut i: usize = from;
    while i < to
        invariant
            from <= i <= to <= v@.len(),
            r@ =~= v@.subrange(from as int, i as int),
        decreases to - i,
    {
        r.push(v[i]);
        i = i + 1;
    }
    r
}

/// The text with every run of backslashes shortened to a single backslash.
pub open spec fn squeezed(s: Seq<char>) -> Seq<char>
    decreases s.len(),
{
    if s.len() == 0 {
        s
    } else if s.len() >= 2 && s.last() == '\\' && s[s.len() - 2] == '\\' {
        squeezed(s.drop_last())
    } else {
        squeezed(s.drop_last()).push(s.last())
    }
}

pub(crate) fn squeeze_chars(s: &Vec<char>) -> (r: Vec<char>)
    ensures
        r@ == squeezed(s@),
{
    let n = s.len();
    let mut r: Vec<char> = Vec::new();
    let mut i: usize = 0;
    while i < n
        invariant
            n == s@.len(),
            i <= n,
            r@ == squeezed(s@.subrange(0, i as int)),
        decreases n - i,
    {
        assert(s@.subrange(0, i + 1).drop_last() =~= s@.subrange(0, i as int));
        if !(i >= 1 && s[i] == '\\' && s[i - 1] == '\\') {
            r.push(s[i]);
        }
        i = i + 1;
    }
    assert(s@.subrange(0, n as int) =~= s@);
    r
}

/// Collapses each run of backslashes into one.
pub fn simplify(to_simplify: &str) -> (r: String)
    ensures
        r@ == squeezed(to_simplify@),
{
    let c = chars_of(to_simplify);
    string_of(&squeeze_chars(&c))
}

pub(crate) fn contains_char(s: &Vec<char>, c: char) -> (r: bool)
    ensures
        r == s@.contains(c),
{
    let n = s.len();
    let mut i: usize = 0;
    while i < n
        invariant
            n == s@.len(),
            i <= n,
            forall|j: int| 0 <= j < i ==> s@[j] != c,
        decreases n - i,
    {
        if s[i] == c {
            assert(s@[i as int] == c);
            return true;
        }
        i = i + 1;
    }
    false
}

/// Whether the text holds both an opening and a closing brace.
pub fn contains_multiple(potential_multiple: &str) -> (r: bool)
    ensures
        r == (potential_multiple@.contains('{') && potential_multiple@.contains('}')),
{
    let c = chars_of(potential_multiple);
    contains_char(&c, '{') && contains_char(&c, '}')
}

/// `i` is the position of the first `c` in `s`.
pub open spec fn is_first(s: Seq<char>, c: char, i: int) -> bool {
    0 <= i < s.len() && s[i] == c && forall|j: int| 0 <= j < i ==> s[j] != c
}

pub open spec fn first_index(s: Seq<char>, c: char) -> int {
    choose|i: int| is_first(s, c, i)
}

pub(crate) fn find_char(s: &Vec<char>, c: char) -> (r: Option<usize>)
    ensures
        match r {
            Some(i) => is_first(s@, c, i as int) && first_index(s@, c) == i,
            None => !s@.contains(c),
        },
{
    let n = s.len();
    let mut i: usize = 0;
    while i < n
        invariant
            n == s@.len(),
            i <= n,
            forall|j: int| 0 <= j < i ==> s@[j] != c,
        decreases n - i,
    {
        if s[i] == c {
            assert(is_first(s@, c, i as int));
            assert forall|k: int| is_first(s@, c, k) implies k == i by {
                if k < i {
                    assert(s@[k] != c);
                } else if k > i {
                    assert(s@[i as int] != c);
                }
            }
            return Some(i);
        }
        i = i + 1;
    }
    None
}

/// The pieces of a text between commas; a text without a comma is one piece.
pub open spec fn split_commas(s: Seq<char>) -> Seq<Seq<char>>
    decreases s.len(),
{
    if s.len() == 0 {
        seq![Seq::empty()]
    } else {
        let p = split_commas(s.drop_last());
        if s.last() == ',' {
            p.push(Seq::empty())
        } else {
            p.update(p.len() - 1, p.last().push(s.last()))
        }
    }
}

pub(crate) fn split_at_commas(s: &Vec<char>) -> (r: Vec<Vec<char>>)
    ensures
        seqs_view(r@) == split_commas(s@),
{
    let n = s.len();
    let mut done: Vec<Vec<char>> = Vec::new();
    let mut cur: Vec<char> = Vec::new();
    let mut i: usize = 0;
    while i < n
        invariant
            n == s@.len(),
            i <= n,
            seqs_view(done@).push(cur@) =~= split_commas(s@.subrange(0, i as int)),
        decreases n - i,
    {
        let ghost before = split_commas(s@.subrange(0, i as int));
        assert(s@.subrange(0, i + 1).drop_last() =~= s@.subrange(0, i as int));
        if s[i] == ',' {
            done.push(cur);
            cur = Vec::new();
            assert(seqs_view(done@).push(cur@) =~= before.push(Seq::empty()));
        } else {
            cur.push(s[i]);
            assert(seqs_view(done@).push(cur@) =~= before.update(
                before.len() - 1,
                before.last().push(s@[i as int]),
            ));
        }
        i = i + 1;
    }
    assert(s@.subrange(0, n as int) =~= s@);
    done.push(cur);
    done
}

/// Each piece between the braces, with `prefix` before it and each of `rest`
/// after it; pieces in order, and for each piece `rest` in order.
pub open spec fn combine(prefix: Seq<char>, pieces: Seq<Seq<char>>, rest: Seq<Seq<char>>) -> Seq<
    Seq<char>,
>
    decreases pieces.len(),
{
    if pieces.len() == 0 {
        seq![]
    } else {
        combine(prefix, pieces.drop_last(), rest) + rest.map_values(
            |e: Seq<char>| prefix + pieces.last() + e,
        )
    }
}

/// The brace expansion of a text: the first `{...}` group, ended by the first
/// `}`, stands for each of its comma-separated pieces, and the text after the
/// group is expanded in the same way. A text without both braces, or whose
/// first `}` comes before its first `{`, stands for itself.
pub open spec fn expansions(s: Seq<char>) -> Seq<Seq<char>>
    decreases s.len(),
{
    let a = first_index(s, '{');
    let b = first_index(s, '}');
    if s.contains('{') && s.contains('}') && 0 <= a < b < s.len() {
        combine(
            s.subrange(0, a),
            split_commas(s.subrange(a + 1, b)),
            expansions(s.subrange(b + 1, s.len() as int)),
        )
    } else {
        seq![s]
    }
}

pub(crate) fn expand_chars(s: &Vec<char>) -> (r: Vec<Vec<char>>)
    ensures
        seqs_view(r@) == expansions(s@),
    decreases s@.len(),
{
    let n = s.len();
    let open = find_char(s, '{');
    let close = find_char(s, '}');
    if let Some(a) = open {
        if let Some(b) = close {
            assert(s@[a as int] == '{' && s@[b as int] == '}');
            if a < b {
                let prefix = slice_chars(s, 0, a);
                let inner = slice_chars(s, a + 1, b);
                let last = slice_chars(s, b + 1, n);
                let pieces = split_at_commas(&inner);
                let rest = expand_chars(&last);
                let ghost gp = seqs_view(pieces@);
                let ghost gr = seqs_view(rest@);
                let mut out: Vec<Vec<char>> = Vec::new();
                let np = pieces.len();
                let nr = rest.len();
                let mut i: usize = 0;
                while i < np
                    invariant
                        np == gp.len(),
                        nr == gr.len(),
                        gp == seqs_view(pieces@),
                        gr == seqs_view(rest@),
                        i <= np,
                        seqs_view(out@) =~= combine(prefix@, gp.subrange(0, i as int), gr),
                    decreases np - i,
                {
                    let ghost base = seqs_view(out@);
                    let mut j: usize = 0;
                    while j < nr
                        invariant
                            np == gp.len(),
                            nr == gr.len(),
                            gp == seqs_view(pieces@),
                            gr == seqs_view(rest@),
                            i < np,
                            j <= nr,
                            seqs_view(out@) =~= base + gr.subrange(0, j as int).map_values(
                                |e: Seq<char>| prefix@ + gp[i as int] + e,
                            ),
                        decreases nr - j,
                    {
                        let mut item: Vec<char> = Vec::new();
                        push_all(&mut item, &prefix);
                        push_all(&mut item, &pieces[i]);
                        push_all(&mut item, &rest[j]);
                        assert(pieces@[i as int]@ == gp[i as int]);
                        assert(rest@[j as int]@ == gr[j as int]);
                        assert(item@ =~= prefix@ + gp[i as int] + gr[j as int]);
                        let ghost before = out@;
                        out.push(item);
                        assert(seqs_view(out@) =~= seqs_view(before).push(prefix@ + gp[i as int] + gr[j as int]));
                        assert(gr.subrange(0, j + 1).map_values(
                            |e: Seq<char>| prefix@ + gp[i as int] + e,
                        ) =~= gr.subrange(0, j as int).map_values(
                            |e: Seq<char>| prefix@ + gp[i as int] + e,
                        ).push(prefix@ + gp[i as int] + gr[j as int]));
                        j = j + 1;
                    }
                    assert(gr.subrange(0, nr as int) =~= gr);
                    assert(gp.subrange(0, i + 1).drop_last() =~= gp.subrange(0, i as int));
                    i = i + 1;
                }
                assert(gp.subrange(0, np as int) =~= gp);
                return out;
            }
        }
    }
    let mut out: Vec<Vec<char>> = Vec::new();
    out.push(slice_chars(s, 0, s.len()));
    assert(s@.subrange(0, s@.len() as int) =~= s@);
    assert(seqs_view(out@) =~= seq![s@]);
    out
}

/// Every text that the brace groups of `multiples` stand for.
pub fn extract_multiple(multiples: &str) -> (r: Vec<String>)
    ensures
        r@.map_values(|x: String| x@) == expansions(multiples@),
{
    let c = chars_of(multiples);
    let e = expand_chars(&c);
    let mut r: Vec<String> = Vec::new();
    let n = e.len();
    let mut i: usize = 0;
    while i < n
        invariant
            n == e@.len(),
            i <= n,
            r@.map_values(|x: String| x@) =~= seqs_view(e@).subrange(0, i as int),
        decreases n - i,
    {
        assert(seqs_view(e@)[i as int] == e@[i as int]@);
        let ghost before = r@;
        r.push(string_of(&e[i]));
        assert(r@.map_values(|x: String| x@) =~= before.map_values(|x: String| x@).push(e@[i as int]@));
        assert(seqs_view(e@).subrange(0, i + 1) =~= seqs_view(e@).subrange(0, i as int).push(e@[i as int]@));
        i = i + 1;
    }
    assert(seqs_view(e@).subrange(0, n as int) =~= seqs_view(e@));
    r
}


/// `s` with each occurrence of `pat`, found left to right without overlap,
/// replaced by `rep`.
pub open spec fn replaced(s: Seq<char>, pat: Seq<char>, rep: Seq<char>) -> Seq<char>
    decreases s.len(),
{
    if pat.len() == 0 || s.len() < pat.len() {
        s
    } else if s.subrange(0, pat.len() as int) == pat {
        rep + replaced(s.subrange(pat.len() as int, s.len() as int), pat, rep)
    } else {
        seq![s[0]] + replaced(s.subrange(1, s.len() as int), pat, rep)
    }
}

fn matches_at(s: &Vec<char>, i: usize, pat: &Vec<char>) -> (r: bool)
    requires
        i + pat@.len() <= s@.len(),
    ensures
        r == (s@.subrange(i as int, i + pat@.len()) == pat@),
{
    let n = pat.len();
    let sl = s.len();
    let mut k: usize = 0;
    while k < n
        invariant
            n == pat@.len(),
            sl == s@.len(),
            i + n <= s@.len(),
            k <= n,
            forall|j: int| 0 <= j < k ==> s@[i + j] == pat@[j],
        decreases n - k,
    {
        if s[i + k] != pat[k] {
            assert(s@.subrange(i as int, i + n)[k as int] != pat@[k as int]);
            return false;
        }
        k = k + 1;
    }
    assert(s@.subrange(i as int, i + n) =~= pat@);
    true
}

pub(crate) fn replace_chars(s: &Vec<char>, pat: &Vec<char>, rep: &Vec<char>) -> (r: Vec<char>)
    requires
        pat@.len() > 0,
    ensures
        r@ == replaced(s@, pat@, rep@),
{
    let n = s.len();
    let m = pat.len();
    let mut out: Vec<char> = Vec::new();
    let mut i: usize = 0;
    assert(s@.subrange(0, n as int) =~= s@);
    while i < n
        invariant
            n == s@.len(),
            m == pat@.len(),
            m > 0,
            i <= n,
            out@ + replaced(s@.subrange(i as int, n as int), pat@, rep@) == replaced(s@, pat@, rep@),
        decreases n - i,
    {
        let ghost t = s@.subrange(i as int, n as int);
        if m <= n - i && matches_at(s, i, pat) {
            assert(t.subrange(0, m as int) =~= s@.subrange(i as int, i + m));
            assert(t.subrange(m as int, t.len() as int) =~= s@.subrange(i + m, n as int));
            let ghost o = out@;
            push_all(&mut out, rep);
            assert(o + (rep@ + replaced(s@.subrange(i + m, n as int), pat@, rep@)) =~= out@ + replaced(
                s@.subrange(i + m, n as int),
                pat@,
                rep@,
            ));
            i = i + m;
        } else {
            let ghost u = s@.subrange(i + 1, n as int);
            assert(t.subrange(1, t.len() as int) =~= u);
            if m > n - i {
                assert(replaced(u, pat@, rep@) == u);
                assert(t =~= seq![s@[i as int]] + u);
            } else {
                assert(t.subrange(0, m as int) =~= s@.subrange(i as int, i + m));
            }
            let ghost o = out@;
            out.push(s[i]);
            assert(o + (seq![s@[i as int]] + replaced(u, pat@, rep@)) =~= out@ + replaced(u, pat@, rep@));
            i = i + 1;
        }
    }
    assert(s@.subrange(n as int, n as int) =~= Seq::<char>::empty());
    assert(out@ + Seq::<char>::empty() =~= out@);
    out
}

} // verus!
