use vstd::prelude::*;
use vstd::string::*;

use crate::json::strings_view;
use crate::text::push_char;

verus! {

/// One line of a line diff: in both texts, only in the first, or only in the
/// second.
pub enum Edit {
    Same(String),
    Removed(String),
    Added(String),
}

/// The lines of the first text that a list of edits accounts for.
pub open spec fn old_side(es: Seq<Edit>) -> Seq<Seq<char>>
    decreases es.len(),
{
    if es.len() == 0 {
        Seq::empty()
    } else {
        match es.last() {
            Edit::Same(l) => old_side(es.drop_last()).push(l@),
            Edit::Removed(l) => old_side(es.drop_last()).push(l@),
            Edit::Added(_) => old_side(es.drop_last()),
        }
    }
}

/// The lines of the second text that a list of edits accounts for.
pub open spec fn new_side(es: Seq<Edit>) -> Seq<Seq<char>>
    decreases es.len(),
{
    if es.len() == 0 {
        Seq::empty()
    } else {
        match es.last() {
            Edit::Same(l) => new_side(es.drop_last()).push(l@),
            Edit::Added(l) => new_side(es.drop_last()).push(l@),
            Edit::Removed(_) => new_side(es.drop_last()),
        }
    }
}

/// The length of a longest common subsequence of two lists of lines, by the
/// usual recurrence on their first lines.
pub open spec fn lcs_len(x: Seq<Seq<char>>, y: Seq<Seq<char>>) -> nat
    decreases x.len() + y.len(),
{
    if x.len() == 0 || y.len() == 0 {
        0
    } else if x[0] == y[0] {
        1 + lcs_len(x.drop_first(), y.drop_first())
    } else {
        let p = lcs_len(x.drop_first(), y);
        let q = lcs_len(x, y.drop_first());
        if p >= q { p } else { q }
    }
}

/// How many lines an edit script keeps.
pub open spec fn same_count(es: Seq<Edit>) -> nat
    decreases es.len(),
{
    if es.len() == 0 {
        0
    } else {
        same_count(es.drop_last()) + if es.last() is Same { 1nat } else { 0nat }
    }
}

pub open spec fn all_same(es: Seq<Edit>) -> bool {
    forall|k: int| 0 <= k < es.len() ==> #[trigger] es[k] is Same
}

/// A line as it is shown: a mark (` `, `-` or `+`), the line, a line break.
pub open spec fn edit_line(e: Edit) -> Seq<char> {
    match e {
        Edit::Same(l) => seq![' '] + l@ + seq!['\n'],
        Edit::Removed(l) => seq!['-'] + l@ + seq!['\n'],
        Edit::Added(l) => seq!['+'] + l@ + seq!['\n'],
    }
}

pub open spec fn render_spec(es: Seq<Edit>) -> Seq<char>
    decreases es.len(),
{
    if es.len() == 0 {
        Seq::empty()
    } else {
        render_spec(es.drop_last()) + edit_line(es.last())
    }
}

/// The lines joined with line breaks between them.
pub open spec fn join_lines(ls: Seq<Seq<char>>) -> Seq<char>
    decreases ls.len(),
{
    if ls.len() == 0 {
        Seq::empty()
    } else if ls.len() == 1 {
        ls[0]
    } else {
        join_lines(ls.drop_last()) + seq!['\n'] + ls.last()
    }
}

/// `ls` are the lines of `s`: joined with line breaks they give `s` back,
/// and none holds a line break.
pub open spec fn lines_of(s: Seq<char>, ls: Seq<Seq<char>>) -> bool {
    ls.len() >= 1 && join_lines(ls) == s && forall|k: int| 0 <= k < ls.len() ==> !(#[trigger] ls[k]).contains('\n')
}

proof fn lemma_join_extend_last(ls: Seq<Seq<char>>, x: Seq<char>, c: char)
    ensures
        join_lines(ls.push(x.push(c))) == join_lines(ls.push(x)).push(c),
{
    let a = ls.push(x.push(c));
    let b = ls.push(x);
    assert(a.drop_last() =~= ls);
    assert(b.drop_last() =~= ls);
    if ls.len() == 0 {
        assert(a[0] == x.push(c));
        assert(b[0] == x);
    } else {
        assert(join_lines(a) =~= join_lines(b).push(c));
    }
}

/// Splits a text at its line breaks.
pub fn split_lines(s: &str) -> (r: Vec<String>)
    ensures
        lines_of(s@, strings_view(r@)),
{
    let n = s.unicode_len();
    let mut out: Vec<String> = Vec::new();
    let mut start: usize = 0;
    let mut i: usize = 0;
    assert(s@.subrange(0, 0) =~= Seq::<char>::empty());
    assert(strings_view(out@).push(s@.subrange(0, 0)) =~= seq![Seq::<char>::empty()]);
    while i < n
        invariant
            n == s@.len(),
            0 <= start <= i <= n,
            join_lines(strings_view(out@).push(s@.subrange(start as int, i as int))) == s@.subrange(0, i as int),
            !s@.subrange(start as int, i as int).contains('\n'),
            forall|k: int| 0 <= k < out@.len() ==> !(#[trigger] strings_view(out@)[k]).contains('\n'),
        decreases n - i,
    {
        let c = s.get_char(i);
        if c == '\n' {
            let piece = String::from_str(s.substring_char(start, i));
            let ghost before = strings_view(out@);
            out.push(piece);
            let ghost ls = strings_view(out@);
            assert(ls =~= before.push(s@.subrange(start as int, i as int)));
            assert(s@.subrange(i + 1, i + 1) =~= Seq::<char>::empty());
            assert(ls.push(Seq::<char>::empty()).drop_last() =~= ls);
            assert(join_lines(ls.push(Seq::<char>::empty())) =~= join_lines(ls) + seq!['\n']);
            assert(s@.subrange(0, i + 1) =~= s@.subrange(0, i as int).push('\n'));
            start = i + 1;
        } else {
            proof {
                lemma_join_extend_last(strings_view(out@), s@.subrange(start as int, i as int), c);
            }
            assert(s@.subrange(start as int, i + 1) =~= s@.subrange(start as int, i as int).push(c));
            assert(s@.subrange(0, i + 1) =~= s@.subrange(0, i as int).push(c));
            let ghost piece = s@.subrange(start as int, i + 1);
            assert(!piece.contains('\n')) by {
                if piece.contains('\n') {
                    let k = choose|k: int| 0 <= k < piece.len() && #[trigger] piece[k] == '\n';
                    if k < i - start {
                        assert(s@.subrange(start as int, i as int)[k] == '\n');
                    }
                }
            }
        }
        i = i + 1;
    }
    let last = String::from_str(s.substring_char(start, n));
    let ghost before = strings_view(out@);
    out.push(last);
    assert(strings_view(out@) =~= before.push(s@.subrange(start as int, n as int)));
    assert(s@.subrange(0, n as int) =~= s@);
    out
}

/// The table that guides `diff_lines`, filled by the longest common
/// subsequence recurrence: row `k` stands for the last `k` lines of `a`,
/// column `c` for the lines of `b` from `c` on.
fn lcs_table(a: &Vec<String>, b: &Vec<String>) -> (t: Vec<Vec<usize>>)
    ensures
        t@.len() == a@.len() + 1,
        forall|k: int| 0 <= k < t@.len() ==> (#[trigger] t@[k])@.len() == b@.len() + 1,
        forall|k: int, c: int| 0 <= k <= a@.len() && 0 <= c <= b@.len() ==> #[trigger] t@[k]@[c] as nat
            == lcs_len(strings_view(a@).subrange(a@.len() - k, a@.len() as int), strings_view(b@).subrange(c, b@.len() as int)),
{
    let n = a.len();
    let m = b.len();
    let ghost av = strings_view(a@);
    let ghost bv = strings_view(b@);
    let mut rows: Vec<Vec<usize>> = Vec::new();
    rows.push(zeros(m));
    assert forall|c: int| 0 <= c <= m implies #[trigger] rows@[0]@[c] as nat == lcs_len(av.subrange(n - 0, n as int), bv.subrange(c, m as int)) by {
        assert(av.subrange(n - 0, n as int).len() == 0);
    }
    let mut k: usize = 0;
    while k < n
        invariant
            0 <= k <= n,
            n == a@.len(),
            m == b@.len(),
            rows@.len() == k + 1,
            av == strings_view(a@),
            bv == strings_view(b@),
            forall|r: int| 0 <= r <= k ==> (#[trigger] rows@[r])@.len() == m + 1,
            forall|r: int, c: int| 0 <= r <= k && 0 <= c <= m ==> #[trigger] rows@[r]@[c] <= r,
            forall|r: int, c: int| 0 <= r <= k && 0 <= c <= m ==> #[trigger] rows@[r]@[c] as nat
                == lcs_len(av.subrange(n - r, n as int), bv.subrange(c, m as int)),
        decreases n - k,
    {
        let i = n - 1 - k;
        let mut cur = zeros(m);
        assert(bv.subrange(m as int, m as int).len() == 0);
        let mut jj: usize = m;
        while jj > 0
            invariant
                0 <= jj <= m,
                k < n,
                i == n - 1 - k,
                m == b@.len(),
                n == a@.len(),
                rows@.len() == k + 1,
                cur@.len() == m + 1,
                forall|r: int| 0 <= r <= k ==> (#[trigger] rows@[r])@.len() == m + 1,
                forall|r: int, c: int| 0 <= r <= k && 0 <= c <= m ==> #[trigger] rows@[r]@[c] <= r,
                forall|c: int| 0 <= c <= m ==> #[trigger] cur@[c] <= k + 1,
                av == strings_view(a@),
                bv == strings_view(b@),
                forall|r: int, c: int| 0 <= r <= k && 0 <= c <= m ==> #[trigger] rows@[r]@[c] as nat
                    == lcs_len(av.subrange(n - r, n as int), bv.subrange(c, m as int)),
                forall|c: int| jj <= c <= m ==> #[trigger] cur@[c] as nat
                    == lcs_len(av.subrange(i as int, n as int), bv.subrange(c, m as int)),
            decreases jj,
        {
            let j = jj - 1;
            let below = &rows[k];
            proof {
                let x = av.subrange(i as int, n as int);
                let y = bv.subrange(j as int, m as int);
                assert(x.drop_first() =~= av.subrange(n - k, n as int));
                assert(y.drop_first() =~= bv.subrange(j + 1, m as int));
                assert(x[0] == a@[i as int]@);
                assert(y[0] == b@[j as int]@);
            }
            let v = if a[i] == b[j] {
                below[j + 1] + 1
            } else if below[j] >= cur[j + 1] {
                below[j]
            } else {
                cur[j + 1]
            };
            cur.set(j, v);
            jj = j;
        }
        rows.push(cur);
        k = k + 1;
    }
    rows
}

fn zeros(m: usize) -> (r: Vec<usize>)
    ensures
        r@.len() == m + 1,
        forall|c: int| 0 <= c <= m ==> #[trigger] r@[c] == 0,
{
    let mut r: Vec<usize> = Vec::new();
    r.push(0);
    let mut j: usize = 0;
    while j < m
        invariant
            0 <= j <= m,
            r@.len() == j + 1,
            forall|c: int| 0 <= c <= j ==> #[trigger] r@[c] == 0,
        decreases m - j,
    {
        r.push(0);
        j = j + 1;
    }
    r
}

proof fn lemma_equal_step(a: Seq<String>, b: Seq<String>, i: int, j: int)
    requires
        strings_view(a) == strings_view(b),
        i == j,
        0 <= i <= a.len(),
        0 <= j <= b.len(),
        i < a.len() || j < b.len(),
    ensures
        i < a.len(),
        j < b.len(),
        a[i]@ == b[j]@,
{
    assert(strings_view(a).len() == a.len());
    assert(strings_view(b).len() == b.len());
    assert(strings_view(a)[i] == a[i]@);
    assert(strings_view(b)[j] == b[j]@);
}

/// A line diff of `a` against `b` that keeps a longest common subsequence of
/// their lines. Read as a script it rebuilds both sides: its kept and removed lines
/// are `a`, its kept and added lines are `b`. Equal inputs give only kept lines.
pub fn diff_lines(a: &Vec<String>, b: &Vec<String>) -> (r: Vec<Edit>)
    ensures
        old_side(r@) == strings_view(a@),
        new_side(r@) == strings_view(b@),
        strings_view(a@) == strings_view(b@) ==> all_same(r@),
        same_count(r@) == lcs_len(strings_view(a@), strings_view(b@)),
{
    let t = lcs_table(a, b);
    let n = a.len();
    let m = b.len();
    let mut out: Vec<Edit> = Vec::new();
    let mut i: usize = 0;
    let mut j: usize = 0;
    let ghost av = strings_view(a@);
    let ghost bv = strings_view(b@);
    assert(av.subrange(0, n as int) =~= av);
    assert(bv.subrange(0, m as int) =~= bv);
    assert(av.take(0) =~= Seq::<Seq<char>>::empty());
    assert(bv.take(0) =~= Seq::<Seq<char>>::empty());
    while i < n || j < m
        invariant
            n == a@.len(),
            m == b@.len(),
            av == strings_view(a@),
            bv == strings_view(b@),
            t@.len() == n + 1,
            forall|k: int| 0 <= k < t@.len() ==> (#[trigger] t@[k])@.len() == m + 1,
            0 <= i <= n,
            0 <= j <= m,
            old_side(out@) == av.take(i as int),
            new_side(out@) == bv.take(j as int),
            av == bv ==> i == j && all_same(out@),
            forall|k: int, c: int| 0 <= k <= n && 0 <= c <= m ==> #[trigger] t@[k]@[c] as nat
                == lcs_len(av.subrange(n - k, n as int), bv.subrange(c, m as int)),
            same_count(out@) + lcs_len(av.subrange(i as int, n as int), bv.subrange(j as int, m as int)) == lcs_len(av, bv),
        decreases (n - i) + (m - j),
    {
        let ghost prev = out@;
        proof {
            assert(av.subrange(n - (n - i), n as int) == av.subrange(i as int, n as int));
            if i < n {
                let x = av.subrange(i as int, n as int);
                assert(x.drop_first() =~= av.subrange(i + 1, n as int));
                assert(x[0] == a@[i as int]@);
                assert(av.subrange(n - (n - i - 1), n as int) == av.subrange(i + 1, n as int));
            }
            if j < m {
                let y = bv.subrange(j as int, m as int);
                assert(y.drop_first() =~= bv.subrange(j + 1, m as int));
                assert(y[0] == b@[j as int]@);
            }
            assert(av.subrange(n as int, n as int).len() == 0);
            assert(bv.subrange(m as int, m as int).len() == 0);
        }
        if i < n && j < m && a[i] == b[j] {
            out.push(Edit::Same(a[i].clone()));
            assert(out@.drop_last() == prev);
            proof {
                if av == bv {
                    assert forall|q: int| 0 <= q < out@.len() implies #[trigger] out@[q] is Same by {
                        if q < prev.len() {
                            assert(out@[q] == prev[q]);
                        }
                    }
                }
            }
            assert(av.take(i + 1) =~= av.take(i as int).push(av[i as int]));
            assert(bv.take(j + 1) =~= bv.take(j as int).push(bv[j as int]));
            i = i + 1;
            j = j + 1;
        } else if j == m || (i < n && t[n - i - 1][j] >= t[n - i][j + 1]) {
            out.push(Edit::Removed(a[i].clone()));
            assert(out@.drop_last() == prev);
            assert(av.take(i + 1) =~= av.take(i as int).push(av[i as int]));
            proof {
                if av == bv {
                    lemma_equal_step(a@, b@, i as int, j as int);
                }
            }
            i = i + 1;
        } else {
            out.push(Edit::Added(b[j].clone()));
            assert(out@.drop_last() == prev);
            assert(bv.take(j + 1) =~= bv.take(j as int).push(bv[j as int]));
            proof {
                if av == bv {
                    lemma_equal_step(a@, b@, i as int, j as int);
                }
            }
            j = j + 1;
        }
    }
    assert(av.take(n as int) =~= av);
    assert(bv.take(m as int) =~= bv);
    out
}

/// Writes the edits one per line, each behind its mark.
pub fn render(es: &Vec<Edit>) -> (r: String)
    ensures
        r@ == render_spec(es@),
{
    let mut out = String::new();
    let n = es.len();
    let mut i: usize = 0;
    assert(es@.take(0) =~= Seq::<Edit>::empty());
    while i < n
        invariant
            n == es@.len(),
            0 <= i <= n,
            out@ == render_spec(es@.take(i as int)),
        decreases n - i,
    {
        assert(es@.take(i + 1).drop_last() =~= es@.take(i as int));
        let ghost before = out@;
        match &es[i] {
            Edit::Same(l) => {
                push_char(&mut out, ' ');
                out.append(l.as_str());
            },
            Edit::Removed(l) => {
                push_char(&mut out, '-');
                out.append(l.as_str());
            },
            Edit::Added(l) => {
                push_char(&mut out, '+');
                out.append(l.as_str());
            },
        }
        push_char(&mut out, '\n');
        assert(out@ =~= before + edit_line(es@[i as int]));
        i = i + 1;
    }
    assert(es@.take(n as int) =~= es@);
    out
}

fn has_change(es: &Vec<Edit>) -> (r: bool)
    ensures
        r == !all_same(es@),
{
    let n = es.len();
    let mut i: usize = 0;
    while i < n
        invariant
            n == es@.len(),
            0 <= i <= n,
            forall|k: int| 0 <= k < i ==> #[trigger] es@[k] is Same,
        decreases n - i,
    {
        match &es[i] {
            Edit::Same(_) => {},
            _ => return true,
        }
        i = i + 1;
    }
    false
}

/// The result of comparing two texts line by line: empty when they have no
/// difference, and otherwise every line marked as kept, removed or added.
pub open spec fn diff_result(es: Seq<Edit>) -> Seq<char> {
    if all_same(es) {
        Seq::empty()
    } else {
        render_spec(es)
    }
}

/// `t` is a line diff of `x` against `y`: the rendering of an edit script
/// that rebuilds the lines of both and keeps a longest common subsequence of
/// them, and empty when the two are equal.
pub open spec fn is_line_diff(x: Seq<char>, y: Seq<char>, t: Seq<char>) -> bool {
    &&& exists|es: Seq<Edit>|
        #![trigger diff_result(es)]
        lines_of(x, old_side(es)) && lines_of(y, new_side(es)) && t == diff_result(es)
            && same_count(es) == lcs_len(old_side(es), new_side(es))
    &&& x == y ==> t.len() == 0
}

/// A line diff of two texts, ready to print.
pub fn diff_text(a: &str, b: &str) -> (r: String)
    ensures
        is_line_diff(a@, b@, r@),
{
    let la = split_lines(a);
    let lb = split_lines(b);
    let es = diff_lines(&la, &lb);
    proof {
        if a@ == b@ {
            lemma_lines_unique(a@, strings_view(la@), strings_view(lb@));
        }
    }
    assert(diff_result(es@) == diff_result(es@));
    if has_change(&es) {
        render(&es)
    } else {
        String::new()
    }
}

/// The lines of a text are determined by the text.
pub proof fn lemma_lines_unique(s: Seq<char>, l1: Seq<Seq<char>>, l2: Seq<Seq<char>>)
    requires
        lines_of(s, l1),
        lines_of(s, l2),
    ensures
        l1 == l2,
    decreases l1.len(),
{
    if l1.len() == 1 && l2.len() == 1 {
        assert(l1 =~= l2);
    } else if l1.len() == 1 {
        let h2 = join_lines(l2.drop_last());
        assert(s == h2 + seq!['\n'] + l2.last());
        assert(s[h2.len() as int] == '\n');
        assert(l1[0].contains('\n'));
    } else if l2.len() == 1 {
        let h1 = join_lines(l1.drop_last());
        assert(s == h1 + seq!['\n'] + l1.last());
        assert(s[h1.len() as int] == '\n');
        assert(l2[0].contains('\n'));
    } else {
        let h1 = join_lines(l1.drop_last());
        let h2 = join_lines(l2.drop_last());
        let t1 = l1.last();
        let t2 = l2.last();
        assert(s == h1 + seq!['\n'] + t1);
        assert(s == h2 + seq!['\n'] + t2);
        let p1 = h1.len() as int;
        let p2 = h2.len() as int;
        assert(!t1.contains('\n')) by {
            assert(t1 == l1[l1.len() - 1]);
        }
        assert(!t2.contains('\n')) by {
            assert(t2 == l2[l2.len() - 1]);
        }
        if p1 < p2 {
            assert(s[p2] == '\n');
            assert(t1[p2 - p1 - 1] == s[p2]);
        } else if p2 < p1 {
            assert(s[p1] == '\n');
            assert(t2[p1 - p2 - 1] == s[p1]);
        }
        assert(p1 == p2);
        assert(h1 =~= s.subrange(0, p1));
        assert(h2 =~= s.subrange(0, p2));
        assert(t1 =~= s.subrange(p1 + 1, s.len() as int));
        assert(t2 =~= s.subrange(p2 + 1, s.len() as int));
        assert forall|k: int| 0 <= k < l1.drop_last().len() implies !(#[trigger] l1.drop_last()[k]).contains('\n') by {
            assert(l1.drop_last()[k] == l1[k]);
        }
        assert forall|k: int| 0 <= k < l2.drop_last().len() implies !(#[trigger] l2.drop_last()[k]).contains('\n') by {
            assert(l2.drop_last()[k] == l2[k]);
        }
        lemma_lines_unique(h1, l1.drop_last(), l2.drop_last());
        assert(l1 =~= l2.drop_last().push(t2));
        assert(l2 =~= l2.drop_last().push(t2));
    }
}

/// Two texts that are the same have no difference: their diff is empty.
pub proof fn lemma_same_text_no_difference(x: Seq<char>, t: Seq<char>)
    requires
        is_line_diff(x, x, t),
    ensures
        t.len() == 0,
{
}

} // verus!
