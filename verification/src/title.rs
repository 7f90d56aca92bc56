//! Window-title synthesis.
//!
//! A window's title is a deterministic function of its panes' titles:
//! equal non-empty titles are grouped, a group of one pane shows the bare
//! title, a larger group shows `<title> x <count>`, and the groups are
//! joined with `", "` in order of each title's first occurrence.

use vstd::prelude::*;

use crate::text::dec_digits;
use crate::text::render_usize;

verus! {

/// How often `t` occurs in `titles`.
pub open spec fn count_eq(titles: Seq<Seq<char>>, t: Seq<char>) -> nat
    decreases titles.len(),
{
    if titles.len() == 0 {
        0
    } else {
        count_eq(titles.drop_last(), t) + if titles.last() == t {
            1nat
        } else {
            0nat
        }
    }
}

/// The distinct non-empty titles, in order of first occurrence.
pub open spec fn distinct_titles(titles: Seq<Seq<char>>) -> Seq<Seq<char>>
    decreases titles.len(),
{
    if titles.len() == 0 {
        Seq::empty()
    } else {
        let init = distinct_titles(titles.drop_last());
        let t = titles.last();
        if t.len() == 0 || init.contains(t) {
            init
        } else {
            init.push(t)
        }
    }
}

/// One title group: the bare title for a single pane, `<title> x <count>`
/// for several.
pub open spec fn render_group(t: Seq<char>, n: nat) -> Seq<char> {
    if n == 1 {
        t
    } else {
        t + " x "@ + dec_digits(n)
    }
}

/// The rendered groups, one per distinct non-empty title.
pub open spec fn title_segments(titles: Seq<Seq<char>>) -> Seq<Seq<char>> {
    distinct_titles(titles).map_values(|t: Seq<char>| render_group(t, count_eq(titles, t)))
}

/// The groups joined with `", "`.
pub open spec fn join_segments(segs: Seq<Seq<char>>) -> Seq<char>
    decreases segs.len(),
{
    if segs.len() == 0 {
        Seq::empty()
    } else if segs.len() == 1 {
        segs[0]
    } else {
        join_segments(segs.drop_last()) + ", "@ + segs.last()
    }
}

/// The window title a sequence of pane titles synthesizes.
pub open spec fn window_title_spec(titles: Seq<Seq<char>>) -> Seq<char> {
    join_segments(title_segments(titles))
}

pub proof fn lemma_count_le_len(titles: Seq<Seq<char>>, t: Seq<char>)
    ensures
        count_eq(titles, t) <= titles.len(),
    decreases titles.len(),
{
    if titles.len() > 0 {
        lemma_count_le_len(titles.drop_last(), t);
    }
}

pub proof fn lemma_count_pos(titles: Seq<Seq<char>>, t: Seq<char>)
    requires
        titles.contains(t),
    ensures
        count_eq(titles, t) >= 1,
    decreases titles.len(),
{
    let i = choose|i: int| 0 <= i < titles.len() && titles[i] == t;
    if i < titles.len() - 1 {
        assert(titles.drop_last()[i] == t);
        lemma_count_pos(titles.drop_last(), t);
    }
}

pub proof fn lemma_count_zero(titles: Seq<Seq<char>>, t: Seq<char>)
    requires
        !titles.contains(t),
    ensures
        count_eq(titles, t) == 0,
    decreases titles.len(),
{
    if titles.len() > 0 {
        assert(titles.last() != t);
        assert forall|i: int| 0 <= i < titles.drop_last().len() implies titles.drop_last()[i] != t by {
            assert(titles.drop_last()[i] == titles[i]);
        }
        lemma_count_zero(titles.drop_last(), t);
    }
}

/// The title groups dedupe: the distinct titles hold each non-empty title
/// of the input exactly once, never an empty one, and nothing else.
pub proof fn lemma_distinct_titles(titles: Seq<Seq<char>>)
    ensures
        forall|a: int, b: int|
            0 <= a < b < distinct_titles(titles).len() ==> distinct_titles(titles)[a]
                != distinct_titles(titles)[b],
        forall|t: Seq<char>|
            #[trigger] distinct_titles(titles).contains(t) <==> (t.len() > 0 && titles.contains(
                t,
            )),
        forall|k: int|
            0 <= k < distinct_titles(titles).len() ==> distinct_titles(titles)[k].len() > 0,
    decreases titles.len(),
{
    if titles.len() > 0 {
        let s = titles;
        let init = s.drop_last();
        let t0 = s.last();
        let d0 = distinct_titles(init);
        let d = distinct_titles(s);
        lemma_distinct_titles(init);
        assert forall|t: Seq<char>| t.len() > 0 && s.contains(t) implies #[trigger] d.contains(
            t,
        ) by {
            let i = choose|i: int| 0 <= i < s.len() && s[i] == t;
            if i < s.len() - 1 {
                assert(init[i] == t);
                assert(init.contains(t));
                assert(d0.contains(t));
                if !(t0.len() == 0 || d0.contains(t0)) {
                    let k = choose|k: int| 0 <= k < d0.len() && d0[k] == t;
                    assert(d[k] == t);
                }
            } else {
                assert(t0 == t);
                if d0.contains(t0) {
                    let k = choose|k: int| 0 <= k < d0.len() && d0[k] == t;
                    assert(d[k] == t);
                } else {
                    assert(d[d.len() - 1] == t);
                }
            }
        }
        assert forall|t: Seq<char>| #[trigger] d.contains(t) implies t.len() > 0 && s.contains(
            t,
        ) by {
            let k = choose|k: int| 0 <= k < d.len() && d[k] == t;
            if t0.len() == 0 || d0.contains(t0) {
                assert(d0.contains(t));
                let i = choose|i: int| 0 <= i < init.len() && init[i] == t;
                assert(s[i] == t);
            } else {
                if k < d.len() - 1 {
                    assert(d0[k] == t);
                    assert(d0.contains(t));
                    let i = choose|i: int| 0 <= i < init.len() && init[i] == t;
                    assert(s[i] == t);
                } else {
                    assert(t == t0);
                    assert(s[s.len() - 1] == t);
                }
            }
        }
    }
}

/// Synthesizes a window title from the titles of the window's panes.
pub fn window_title(titles: &Vec<String>) -> (r: String)
    ensures
        r@ == window_title_spec(titles.deep_view()),
{
    let ghost dv = titles.deep_view();
    let mut keys: Vec<String> = Vec::new();
    let mut counts: Vec<usize> = Vec::new();
    let n = titles.len();
    proof {
        assert(dv.take(0) =~= Seq::<Seq<char>>::empty());
        assert(dv.len() == titles@.len());
    }
    let mut i: usize = 0;
    while i < n
        invariant
            0 <= i <= n,
            n == titles@.len(),
            dv == titles.deep_view(),
            dv.len() == n,
            counts@.len() == keys@.len(),
            keys.deep_view() == distinct_titles(dv.take(i as int)),
            forall|j: int|
                0 <= j < keys@.len() ==> #[trigger] counts@[j] as nat == count_eq(
                    dv.take(i as int),
                    keys.deep_view()[j],
                ),
        decreases n - i,
    {
        let t = &titles[i];
        proof {
            assert(dv.take(i + 1).drop_last() =~= dv.take(i as int));
            assert(dv.take(i + 1).last() == dv[i as int]);
            assert(dv[i as int] == titles@[i as int]@);
            lemma_distinct_titles(dv.take(i as int));
        }
        if t.as_str().is_empty() {
            proof {
                let ghost kdv = keys.deep_view();
                assert(distinct_titles(dv.take(i + 1)) == distinct_titles(dv.take(i as int)));
                assert forall|j: int| 0 <= j < keys@.len() implies #[trigger] counts@[j] as nat
                    == count_eq(dv.take(i + 1), kdv[j]) by {
                    assert(kdv.contains(kdv[j]));
                    assert(kdv[j].len() > 0);
                    assert(dv.take(i + 1).last() != kdv[j]);
                }
            }
        } else {
            let mut j: usize = 0;
            let klen = keys.len();
            let mut found = false;
            while j < klen && !found
                invariant
                    0 <= j <= klen,
                    klen == keys@.len(),
                    counts@.len() == keys@.len(),
                    !found ==> forall|k: int|
                        0 <= k < j ==> keys.deep_view()[k] != titles@[i as int]@,
                    found ==> j < klen && keys.deep_view()[j as int] == titles@[i as int]@,
                    i < n,
                    n == titles@.len(),
                    t@ == titles@[i as int]@,
                decreases klen - j + if found { 0int } else { 1int },
            {
                proof {
                    assert(keys.deep_view()[j as int] == keys@[j as int].deep_view());
                }
                if keys[j] == *t {
                    found = true;
                } else {
                    j = j + 1;
                }
            }
            let ghost kdv = keys.deep_view();
            let ghost t0 = dv[i as int];
            if found {
                proof {
                    assert(kdv.contains(t0));
                    assert(distinct_titles(dv.take(i + 1)) == distinct_titles(dv.take(i as int)));
                    lemma_count_le_len(dv.take(i as int), t0);
                }
                let c = counts[j];
                counts[j] = c + 1;
                proof {
                    assert forall|k: int| 0 <= k < keys@.len() implies #[trigger] counts@[k] as nat
                        == count_eq(dv.take(i + 1), kdv[k]) by {
                        if k == j as int {
                            assert(dv.take(i + 1).last() == kdv[k]);
                        } else {
                            assert(kdv[k] != kdv[j as int]);
                            assert(dv.take(i + 1).last() != kdv[k]);
                        }
                    }
                }
            } else {
                proof {
                    assert forall|k: int| 0 <= k < kdv.len() implies kdv[k] != t0 by {}
                    assert(!kdv.contains(t0));
                    assert(distinct_titles(dv.take(i + 1)) == distinct_titles(
                        dv.take(i as int),
                    ).push(t0));
                    assert(!dv.take(i as int).contains(t0)) by {
                        if dv.take(i as int).contains(t0) {
                            assert(kdv.contains(t0));
                        }
                    }
                    lemma_count_zero(dv.take(i as int), t0);
                }
                keys.push(t.clone());
                counts.push(1);
                proof {
                    assert(keys.deep_view() =~= kdv.push(t0));
                    assert forall|k: int| 0 <= k < keys@.len() implies #[trigger] counts@[k] as nat
                        == count_eq(dv.take(i + 1), keys.deep_view()[k]) by {
                        if k < kdv.len() {
                            assert(keys.deep_view()[k] == kdv[k]);
                            assert(kdv.contains(kdv[k]));
                            assert(kdv[k].len() > 0);
                            assert(kdv[k] != t0);
                            assert(dv.take(i + 1).last() != kdv[k]);
                        } else {
                            assert(keys.deep_view()[k] == t0);
                            assert(dv.take(i + 1).last() == t0);
                        }
                    }
                }
            }
        }
        i = i + 1;
    }
    proof {
        assert(dv.take(n as int) =~= dv);
    }
    let ghost segs = title_segments(dv);
    let ghost kdv = keys.deep_view();
    proof {
        assert(segs.len() == kdv.len());
        lemma_distinct_titles(dv);
    }
    let mut out = String::new();
    let klen = keys.len();
    let mut j: usize = 0;
    while j < klen
        invariant
            0 <= j <= klen,
            klen == keys@.len(),
            counts@.len() == keys@.len(),
            kdv == keys.deep_view(),
            segs == title_segments(dv),
            segs.len() == kdv.len(),
            kdv == distinct_titles(dv),
            forall|k: int|
                0 <= k < keys@.len() ==> #[trigger] counts@[k] as nat == count_eq(dv, kdv[k]),
            out@ == join_segments(segs.take(j as int)),
        decreases klen - j,
    {
        proof {
            lemma_distinct_titles(dv);
            assert(segs.take(j + 1).drop_last() =~= segs.take(j as int));
            assert(segs.take(j + 1).last() == segs[j as int]);
            assert(segs[j as int] == render_group(kdv[j as int], count_eq(dv, kdv[j as int])));
            assert(kdv.contains(kdv[j as int]));
            lemma_count_pos(dv, kdv[j as int]);
            assert(keys.deep_view()[j as int] == keys@[j as int].deep_view());
        }
        if j > 0 {
            out.append(", ");
        }
        out.append(keys[j].as_str());
        let c = counts[j];
        if c != 1 {
            out.append(" x ");
            let rendered = render_usize(c);
            out.append(rendered.as_str());
        }
        proof {
            if j == 0 {
                assert(out@ =~= segs[0]);
                assert(join_segments(segs.take(1)) == segs.take(1)[0]);
            }
            assert(out@ =~= join_segments(segs.take(j + 1)));
        }
        j = j + 1;
    }
    proof {
        assert(segs.take(klen as int) =~= segs);
    }
    out
}

} // verus!
