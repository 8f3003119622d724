//! Character-level text helpers: conversions between `String` and `Vec<char>`,
//! Unicode whitespace, splitting on a separator and on whitespace runs.
use vstd::prelude::*;

verus! {

/// The views of a sequence of strings.
pub open spec fn views(v: Seq<String>) -> Seq<Seq<char>> {
    v.map_values(|s: String| s@)
}

/// Whether `c` has the Unicode `White_Space` property (what `char::is_whitespace`
/// tests, and so what `str::trim` and `str::split_whitespace` split on).
pub open spec fn is_ws(c: char) -> bool {
    let n = c as u32;
    ||| 9 <= n <= 13
    ||| n == 32
    ||| n == 0x85
    ||| n == 0xa0
    ||| n == 0x1680
    ||| 0x2000 <= n <= 0x200a
    ||| n == 0x2028
    ||| n == 0x2029
    ||| n == 0x202f
    ||| n == 0x205f
    ||| n == 0x3000
}

/// A text is blank when it holds nothing but whitespace, i.e. when trimming it
/// leaves the empty string.
pub open spec fn is_blank(s: Seq<char>) -> bool {
    forall|i: int| 0 <= i < s.len() ==> is_ws(#[trigger] s[i])
}

/// The pieces of `s` between the occurrences of `sep`, as `str::split` gives
/// them: one more piece than there are separators, empty pieces included.
pub open spec fn split_char(s: Seq<char>, sep: char) -> Seq<Seq<char>>
    decreases s.len(),
{
    if s.len() == 0 {
        seq![Seq::<char>::empty()]
    } else {
        let p = split_char(s.drop_last(), sep);
        if s.last() == sep {
            p.push(Seq::<char>::empty())
        } else {
            p.update(p.len() - 1, p.last().push(s.last()))
        }
    }
}

/// The maximal runs of non-whitespace characters of `s`, in order: what
/// `str::split_whitespace` yields.
pub open spec fn words(s: Seq<char>) -> Seq<Seq<char>>
    decreases s.len(),
{
    if s.len() == 0 {
        Seq::<Seq<char>>::empty()
    } else {
        let w = words(s.drop_last());
        if is_ws(s.last()) {
            w
        } else if s.len() >= 2 && !is_ws(s[s.len() - 2]) {
            w.update(w.len() - 1, w.last().push(s.last()))
        } else {
            w.push(seq![s.last()])
        }
    }
}

/// `i` is the position of the first `c` in `s`.
pub open spec fn is_first(s: Seq<char>, c: char, i: int) -> bool {
    &&& 0 <= i < s.len()
    &&& s[i] == c
    &&& forall|j: int| 0 <= j < i ==> s[j] != c
}

/// The position of the first `c` in `s`, if there is one.
pub open spec fn first_index(s: Seq<char>, c: char) -> Option<int> {
    if exists|i: int| is_first(s, c, i) {
        Some(choose|i: int| is_first(s, c, i))
    } else {
        None
    }
}

/// There is at most one first position.
pub proof fn lemma_first_unique(s: Seq<char>, c: char, i: int)
    requires
        is_first(s, c, i),
    ensures
        first_index(s, c) == Some(i),
{
    let k = choose|k: int| is_first(s, c, k);
    assert(is_first(s, c, k));
    if k < i {
        assert(s[k] != c);
    } else if i < k {
        assert(s[i] != c);
    }
}

/// Without a `c` in `s` there is no first position.
pub proof fn lemma_first_none(s: Seq<char>, c: char)
    requires
        forall|j: int| 0 <= j < s.len() ==> s[j] != c,
    ensures
        first_index(s, c) is None,
{
    if exists|i: int| is_first(s, c, i) {
        let k = choose|k: int| is_first(s, c, k);
        assert(s[k] == c);
    }
}

/// `split_char` always yields at least one piece.
pub proof fn lemma_split_nonempty(s: Seq<char>, sep: char)
    ensures
        split_char(s, sep).len() >= 1,
    decreases s.len(),
{
    if s.len() > 0 {
        lemma_split_nonempty(s.drop_last(), sep);
    }
}

/// A text without the separator is one piece.
pub proof fn lemma_split_without_sep(s: Seq<char>, sep: char)
    requires
        forall|j: int| 0 <= j < s.len() ==> s[j] != sep,
    ensures
        split_char(s, sep) == seq![s],
    decreases s.len(),
{
    if s.len() > 0 {
        lemma_split_without_sep(s.drop_last(), sep);
        assert(seq![s.drop_last()].last().push(s.last()) =~= s);
        assert(seq![s.drop_last()].update(0, s) =~= seq![s]);
    } else {
        assert(s =~= Seq::<char>::empty());
    }
}

/// Splitting `a + [sep] + b` where `a` holds no separator gives `a` first and
/// then the pieces of `b`.
pub proof fn lemma_split_at_first(a: Seq<char>, sep: char, b: Seq<char>)
    requires
        forall|j: int| 0 <= j < a.len() ==> a[j] != sep,
    ensures
        split_char(a.push(sep) + b, sep) == seq![a] + split_char(b, sep),
    decreases b.len(),
{
    if b.len() == 0 {
        assert(a.push(sep) + b =~= a.push(sep));
        assert((a.push(sep)).drop_last() =~= a);
        lemma_split_without_sep(a, sep);
        assert(seq![a].push(Seq::<char>::empty()) =~= seq![a] + seq![Seq::<char>::empty()]);
    } else {
        lemma_split_at_first(a, sep, b.drop_last());
        let s = a.push(sep) + b;
        assert(s.drop_last() =~= a.push(sep) + b.drop_last());
        assert(s.last() == b.last());
        lemma_split_nonempty(b.drop_last(), sep);
        let p = split_char(b.drop_last(), sep);
        if b.last() == sep {
            assert((seq![a] + p).push(Seq::<char>::empty()) =~= seq![a] + p.push(
                Seq::<char>::empty(),
            ));
        } else {
            assert((seq![a] + p).update(p.len() as int, p.last().push(b.last())) =~= seq![a]
                + p.update(p.len() - 1, p.last().push(b.last())));
        }
    }
}

/// The characters of `s`, in order.
pub fn chars_of(s: &str) -> (v: Vec<char>)
    ensures
        v@ == s@,
{
    let mut v: Vec<char> = Vec::new();
    for c in it: s.chars()
        invariant
            v@ == it.seq().take(it.index() as int),
    {
        v.push(c);
    }
    v
}

/// Appends one character to a string.
/// Calls `String::push`, which appends the character at the end.
#[verifier::external_body]
pub(crate) fn push_char(s: &mut String, c: char)
    ensures
        final(s)@ == old(s)@.push(c),
{
    s.push(c);
}

/// The string made of the characters of `v`, in order.
pub fn string_of(v: &Vec<char>) -> (s: String)
    ensures
        s@ == v@,
{
    let mut s = String::new();
    let mut i: usize = 0;
    while i < v.len()
        invariant
            i <= v.len(),
            s@ == v@.take(i as int),
        decreases v.len() - i,
    {
        push_char(&mut s, v[i]);
        assert(v@.take(i as int).push(v@[i as int]) =~= v@.take(i + 1));
        i += 1;
    }
    assert(v@.take(v.len() as int) =~= v@);
    s
}

/// The characters `v[from..to]`.
pub fn chars_range(v: &Vec<char>, from: usize, to: usize) -> (r: Vec<char>)
    requires
        from <= to <= v.len(),
    ensures
        r@ == v@.subrange(from as int, to as int),
{
    let mut r: Vec<char> = Vec::new();
    let mut i: usize = from;
    while i < to
        invariant
            from <= i <= to <= v.len(),
            r@ == v@.subrange(from as int, i as int),
        decreases to - i,
    {
        r.push(v[i]);
        assert(v@.subrange(from as int, i as int).push(v@[i as int]) =~= v@.subrange(
            from as int,
            i + 1,
        ));
        i += 1;
    }
    r
}

/// Appends the characters of `t` to `s`.
pub fn append_chars(s: &mut String, t: &Vec<char>)
    ensures
        final(s)@ == old(s)@ + t@,
{
    let mut i: usize = 0;
    while i < t.len()
        invariant
            i <= t.len(),
            s@ == old(s)@ + t@.take(i as int),
        decreases t.len() - i,
    {
        push_char(s, t[i]);
        assert(old(s)@ + t@.take(i as int).push(t@[i as int]) =~= old(s)@ + t@.take(i + 1));
        i += 1;
    }
    assert(t@.take(t.len() as int) =~= t@);
}

/// Appends the text of `t` to `s`.
pub fn append_str(s: &mut String, t: &str)
    ensures
        final(s)@ == old(s)@ + t@,
{
    let v = chars_of(t);
    append_chars(s, &v);
}

/// Whether `c` is whitespace (`char::is_whitespace`).
pub fn is_ws_char(c: char) -> (b: bool)
    ensures
        b == is_ws(c),
{
    let n = c as u32;
    (9 <= n && n <= 13) || n == 32 || n == 0x85 || n == 0xa0 || n == 0x1680 || (0x2000 <= n
        && n <= 0x200a) || n == 0x2028 || n == 0x2029 || n == 0x202f || n == 0x205f || n
        == 0x3000
}

/// Whether `s` holds nothing but whitespace (`s.trim().is_empty()`).
pub fn is_blank_str(s: &str) -> (b: bool)
    ensures
        b == is_blank(s@),
{
    let v = chars_of(s);
    let mut i: usize = 0;
    while i < v.len()
        invariant
            i <= v.len(),
            v@ == s@,
            forall|j: int| 0 <= j < i ==> is_ws(#[trigger] v@[j]),
        decreases v.len() - i,
    {
        if !is_ws_char(v[i]) {
            return false;
        }
        i += 1;
    }
    true
}

/// The position of the first `c` in `v`.
pub fn find_char(v: &Vec<char>, c: char) -> (r: Option<usize>)
    ensures
        match r {
            Some(i) => is_first(v@, c, i as int) && first_index(v@, c) == Some(i as int),
            None => first_index(v@, c) is None && forall|j: int|
                0 <= j < v@.len() ==> v@[j] != c,
        },
{
    let mut i: usize = 0;
    while i < v.len()
        invariant
            i <= v.len(),
            forall|j: int| 0 <= j < i ==> v@[j] != c,
        decreases v.len() - i,
    {
        if v[i] == c {
            proof {
                lemma_first_unique(v@, c, i as int);
            }
            return Some(i);
        }
        i += 1;
    }
    proof {
        lemma_first_none(v@, c);
    }
    None
}

/// Whether `v` starts with the characters of `p`.
pub fn starts_with_chars(v: &Vec<char>, p: &Vec<char>) -> (b: bool)
    ensures
        b == (p@.len() <= v@.len() && v@.take(p@.len() as int) == p@),
{
    if p.len() > v.len() {
        return false;
    }
    let mut i: usize = 0;
    while i < p.len()
        invariant
            i <= p.len() <= v.len(),
            forall|j: int| 0 <= j < i ==> v@[j] == p@[j],
        decreases p.len() - i,
    {
        if v[i] != p[i] {
            assert(v@.take(p@.len() as int)[i as int] != p@[i as int]);
            return false;
        }
        i += 1;
    }
    assert(v@.take(p@.len() as int) =~= p@);
    true
}

/// The pieces of `v` between the occurrences of `sep` (`str::split`).
pub fn split_on(v: &Vec<char>, sep: char) -> (r: Vec<Vec<char>>)
    ensures
        r@.map_values(|w: Vec<char>| w@) == split_char(v@, sep),
{
    let mut out: Vec<Vec<char>> = Vec::new();
    let mut cur: Vec<char> = Vec::new();
    let mut i: usize = 0;
    while i < v.len()
        invariant
            i <= v.len(),
            out@.map_values(|w: Vec<char>| w@).push(cur@) == split_char(v@.take(i as int), sep),
        decreases v.len() - i,
    {
        let c = v[i];
        let ghost prev = split_char(v@.take(i as int), sep);
        assert(v@.take(i + 1).drop_last() =~= v@.take(i as int));
        assert(v@.take(i + 1).last() == c);
        if c == sep {
            let done = cur;
            out.push(done);
            cur = Vec::new();
            assert(out@.map_values(|w: Vec<char>| w@) =~= prev);
            assert(out@.map_values(|w: Vec<char>| w@).push(cur@) =~= prev.push(
                Seq::<char>::empty(),
            ));
        } else {
            cur.push(c);
            assert(out@.map_values(|w: Vec<char>| w@).push(cur@) =~= prev.update(
                prev.len() - 1,
                prev.last().push(c),
            ));
        }
        i += 1;
    }
    assert(v@.take(v.len() as int) =~= v@);
    out.push(cur);
    out
}

/// The whitespace-separated words of `s` (`str::split_whitespace`).
pub fn split_whitespace(s: &str) -> (r: Vec<String>)
    ensures
        views(r@) == words(s@),
{
    let v = chars_of(s);
    let mut out: Vec<String> = Vec::new();
    let mut cur: Vec<char> = Vec::new();
    let mut i: usize = 0;
    while i < v.len()
        invariant
            i <= v.len(),
            v@ == s@,
            cur@.len() > 0 ==> views(out@).push(cur@) == words(v@.take(i as int)),
            cur@.len() > 0 ==> i > 0 && !is_ws(v@[i - 1]),
            cur@.len() == 0 ==> views(out@) == words(v@.take(i as int)),
            cur@.len() == 0 ==> i == 0 || is_ws(v@[i - 1]),
        decreases v.len() - i,
    {
        let c = v[i];
        let ghost prev = words(v@.take(i as int));
        let ghost t = v@.take(i + 1);
        assert(t.drop_last() =~= v@.take(i as int));
        assert(t.last() == c);
        if is_ws_char(c) {
            if cur.len() > 0 {
                let w = string_of(&cur);
                out.push(w);
                cur = Vec::new();
                assert(views(out@) =~= prev);
            }
        } else {
            if cur.len() > 0 {
                assert(t[t.len() - 2] == v@[i - 1]);
                cur.push(c);
                assert(views(out@).push(cur@) =~= prev.update(
                    prev.len() - 1,
                    prev.last().push(c),
                ));
            } else {
                assert(i > 0 ==> t[t.len() - 2] == v@[i - 1]);
                cur.push(c);
                assert(cur@ =~= seq![c]);
                assert(views(out@).push(cur@) =~= prev.push(seq![c]));
            }
        }
        i += 1;
    }
    assert(v@.take(v.len() as int) =~= v@);
    if cur.len() > 0 {
        let w = string_of(&cur);
        out.push(w);
        assert(views(out@) =~= words(s@));
    }
    out
}

/// Every word is non-empty and holds no whitespace, so no word is blank.
pub proof fn lemma_words_not_blank(s: Seq<char>)
    ensures
        forall|k: int|
            0 <= k < words(s).len() ==> #[trigger] words(s)[k].len() > 0 && !is_blank(
                words(s)[k],
            ),
        forall|k: int, j: int|
            0 <= k < words(s).len() && 0 <= j < words(s)[k].len() ==> !is_ws(
                #[trigger] words(s)[k][j],
            ),
    decreases s.len(),
{
    if s.len() > 0 {
        lemma_words_not_blank(s.drop_last());
        let w = words(s.drop_last());
        if is_ws(s.last()) {
        } else if s.len() >= 2 && !is_ws(s[s.len() - 2]) {
            lemma_words_nonempty_when_last_word(s.drop_last());
            let nw = w.update(w.len() - 1, w.last().push(s.last()));
            assert forall|k: int, j: int|
                0 <= k < nw.len() && 0 <= j < nw[k].len() implies !is_ws(#[trigger] nw[k][j]) by {
                if k == w.len() - 1 && j == w.last().len() {
                } else if k == w.len() - 1 {
                    assert(nw[k][j] == w[k][j]);
                }
            }
            assert forall|k: int| 0 <= k < nw.len() implies #[trigger] nw[k].len() > 0
                && !is_blank(nw[k]) by {
                assert(!is_ws(nw[k][0]));
            }
        } else {
            let nw = w.push(seq![s.last()]);
            assert forall|k: int| 0 <= k < nw.len() implies #[trigger] nw[k].len() > 0
                && !is_blank(nw[k]) by {
                if k < w.len() {
                    assert(!is_ws(w[k][0]));
                } else {
                    assert(nw[k][0] == s.last());
                }
            }
        }
    }
}

/// A text whose last character is not whitespace has at least one word.
pub proof fn lemma_words_nonempty_when_last_word(s: Seq<char>)
    requires
        s.len() > 0,
        !is_ws(s.last()),
    ensures
        words(s).len() > 0,
    decreases s.len(),
{
    if s.len() >= 2 && !is_ws(s[s.len() - 2]) {
        assert(s.drop_last().last() == s[s.len() - 2]);
        lemma_words_nonempty_when_last_word(s.drop_last());
    }
}

} // verus!

verus! {

/// Appending a text without the separator extends the last piece.
pub proof fn lemma_split_append_plain(a: Seq<char>, b: Seq<char>, sep: char)
    requires
        forall|j: int| 0 <= j < b.len() ==> b[j] != sep,
    ensures
        split_char(a + b, sep) == split_char(a, sep).update(
            split_char(a, sep).len() - 1,
            split_char(a, sep).last() + b,
        ),
    decreases b.len(),
{
    lemma_split_nonempty(a, sep);
    let p = split_char(a, sep);
    if b.len() == 0 {
        assert(a + b =~= a);
        assert(p.last() + b =~= p.last());
        assert(p.update(p.len() - 1, p.last()) =~= p);
    } else {
        lemma_split_append_plain(a, b.drop_last(), sep);
        let s = a + b;
        assert(s.drop_last() =~= a + b.drop_last());
        assert(s.last() == b.last());
        let q = p.update(p.len() - 1, p.last() + b.drop_last());
        assert(q.last().push(b.last()) =~= p.last() + b);
        assert(q.update(q.len() - 1, q.last().push(b.last())) =~= p.update(
            p.len() - 1,
            p.last() + b,
        ));
    }
}

} // verus!

verus! {

/// The text made of gaps and words in turn: `g[0] w[0] g[1] ... w[n-1] g[n]`.
pub open spec fn interleave(g: Seq<Seq<char>>, w: Seq<Seq<char>>) -> Seq<char>
    decreases w.len(),
{
    if w.len() == 0 {
        if g.len() > 0 {
            g[0]
        } else {
            Seq::<char>::empty()
        }
    } else {
        interleave(g.drop_last(), w.drop_last()) + w.last() + g.last()
    }
}

/// `s` is the words `w` separated by the gaps `g`: the gaps hold only
/// whitespace, those between two words are not empty, and the words are
/// non-empty runs without whitespace.
pub open spec fn is_word_split(s: Seq<char>, g: Seq<Seq<char>>, w: Seq<Seq<char>>) -> bool {
    &&& g.len() == w.len() + 1
    &&& s == interleave(g, w)
    &&& forall|k: int| 0 <= k < g.len() ==> is_blank(#[trigger] g[k])
    &&& forall|k: int| 0 < k < w.len() ==> (#[trigger] g[k]).len() > 0
    &&& forall|k: int| 0 <= k < w.len() ==> (#[trigger] w[k]).len() > 0
    &&& forall|k: int, j: int| 0 <= k < w.len() && 0 <= j < w[k].len() ==> !is_ws(#[trigger] w[k][j])
}

/// The gaps around the words of `s`.
proof fn word_gaps(s: Seq<char>) -> (g: Seq<Seq<char>>)
    ensures
        is_word_split(s, g, words(s)),
        s.len() > 0 && !is_ws(s.last()) ==> g.last().len() == 0,
        s.len() > 0 && is_ws(s.last()) ==> g.last().len() > 0,
    decreases s.len(),
{
    lemma_words_not_blank(s);
    if s.len() == 0 {
        let g = seq![Seq::<char>::empty()];
        assert(interleave(g, words(s)) == g[0]);
        assert(s =~= g[0]);
        g
    } else {
        let t = s.drop_last();
        let c = s.last();
        let g0 = word_gaps(t);
        let w0 = words(t);
        lemma_words_not_blank(t);
        assert(t.push(c) =~= s);
        if is_ws(c) {
            let g = g0.update(g0.len() - 1, g0.last().push(c));
            if w0.len() == 0 {
                assert(interleave(g, w0) == g[0]);
            } else {
                assert(g.drop_last() =~= g0.drop_last());
            }
            assert(interleave(g, w0) =~= interleave(g0, w0).push(c));
            assert forall|k: int| 0 <= k < g.len() implies is_blank(#[trigger] g[k]) by {
                if k == g.len() - 1 {
                    assert forall|j: int| 0 <= j < g[k].len() implies is_ws(#[trigger] g[k][j]) by {
                        if j < g0.last().len() {
                            assert(g[k][j] == g0.last()[j]);
                            assert(is_blank(g0[g0.len() - 1]));
                        }
                    }
                } else {
                    assert(g[k] == g0[k]);
                }
            }
            assert forall|k: int| 0 < k < w0.len() implies (#[trigger] g[k]).len() > 0 by {
                assert(g[k] == g0[k]);
            }
            g
        } else if s.len() >= 2 && !is_ws(s[s.len() - 2]) {
            assert(t.last() == s[s.len() - 2]);
            lemma_words_nonempty_when_last_word(t);
            let w = w0.update(w0.len() - 1, w0.last().push(c));
            assert(w == words(s));
            assert(w.drop_last() =~= w0.drop_last());
            assert(g0.last() =~= Seq::<char>::empty());
            assert(interleave(g0, w) =~= interleave(g0, w0).push(c));
            g0
        } else {
            let w = w0.push(seq![c]);
            assert(w == words(s));
            let g = g0.push(Seq::<char>::empty());
            assert(g.drop_last() =~= g0);
            assert(w.drop_last() =~= w0);
            assert(interleave(g, w) =~= interleave(g0, w0).push(c));
            assert forall|k: int| 0 <= k < g.len() implies is_blank(#[trigger] g[k]) by {
                if k < g0.len() {
                    assert(g[k] == g0[k]);
                }
            }
            assert forall|k: int| 0 < k < w.len() implies (#[trigger] g[k]).len() > 0 by {
                assert(g[k] == g0[k]);
                if k == g0.len() - 1 {
                    assert(t.len() > 0);
                }
            }
            g
        }
    }
}

/// `words(s)` are the whitespace-separated words of `s`: `s` is them
/// separated by whitespace gaps, each gap between two words non-empty, each
/// word a non-empty run without whitespace. A text with a non-whitespace
/// character has at least one word.
pub proof fn lemma_words_split(s: Seq<char>)
    ensures
        exists|g: Seq<Seq<char>>| is_word_split(s, g, words(s)),
        (exists|j: int| 0 <= j < s.len() && !is_ws(s[j])) ==> words(s).len() > 0,
{
    let g = word_gaps(s);
    if words(s).len() == 0 {
        assert(s == g[0]);
        assert(is_blank(g[0]));
    }
}

} // verus!

verus! {

/// The pieces joined back with `sep` between each two.
pub open spec fn join_with(p: Seq<Seq<char>>, sep: char) -> Seq<char>
    decreases p.len(),
{
    if p.len() == 0 {
        Seq::<char>::empty()
    } else if p.len() == 1 {
        p[0]
    } else {
        join_with(p.drop_last(), sep).push(sep) + p.last()
    }
}

/// Splitting at `sep` loses nothing: the pieces hold no `sep` and, joined
/// back with `sep`, give the text.
pub proof fn lemma_split_join(s: Seq<char>, sep: char)
    ensures
        join_with(split_char(s, sep), sep) == s,
        forall|k: int, j: int|
            0 <= k < split_char(s, sep).len() && 0 <= j < split_char(s, sep)[k].len()
                ==> #[trigger] split_char(s, sep)[k][j] != sep,
    decreases s.len(),
{
    if s.len() == 0 {
        assert(join_with(seq![Seq::<char>::empty()], sep) == Seq::<char>::empty());
    } else {
        let t = s.drop_last();
        let c = s.last();
        lemma_split_join(t, sep);
        lemma_split_nonempty(t, sep);
        let p = split_char(t, sep);
        assert(t.push(c) =~= s);
        if c == sep {
            let q = p.push(Seq::<char>::empty());
            assert(q.drop_last() =~= p);
            assert(join_with(q, sep) =~= join_with(p, sep).push(sep));
            assert forall|k: int, j: int| 0 <= k < q.len() && 0 <= j < q[k].len() implies #[trigger] q[k][j]
                != sep by {
                assert(q[k] == p[k]);
            }
        } else {
            let q = p.update(p.len() - 1, p.last().push(c));
            if p.len() == 1 {
                assert(join_with(q, sep) == q[0]);
            } else {
                assert(q.drop_last() =~= p.drop_last());
            }
            assert(join_with(q, sep) =~= join_with(p, sep).push(c));
            assert forall|k: int, j: int| 0 <= k < q.len() && 0 <= j < q[k].len() implies #[trigger] q[k][j]
                != sep by {
                if k == p.len() - 1 {
                    if j < p.last().len() {
                        assert(q[k][j] == p[k][j]);
                    }
                } else {
                    assert(q[k] == p[k]);
                }
            }
        }
    }
}

} // verus!
