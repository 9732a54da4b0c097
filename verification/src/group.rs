use crate::model::issue_views;
use crate::model::year_views;
use crate::model::Config;
use crate::model::Issue;
use crate::model::IssueV;
use crate::model::Mirror;
use crate::model::Year;
use crate::model::YearV;
use vstd::multiset::Multiset;
use vstd::prelude::*;

verus! {

broadcast use vstd::seq_lib::group_to_multiset_ensures;

/// Non-decreasing by volume number, the only key issues are ordered by.
pub open spec fn sorted_by_volume(s: Seq<IssueV>) -> bool {
    forall|i: int, j: int|
        #![trigger s[i], s[j]]
        0 <= i <= j < s.len() ==> s[i].volume <= s[j].volume
}

/// No two issues share a volume number.
pub open spec fn distinct_volumes(s: Seq<IssueV>) -> bool {
    forall|i: int, j: int|
        #![trigger s[i], s[j]]
        0 <= i < j < s.len() ==> s[i].volume != s[j].volume
}

/// Partition of a sequence into maximal consecutive runs of equal year:
/// each element either joins the last run, when it shares its year, or
/// opens a new run of its own.
pub open spec fn group_by_year(s: Seq<IssueV>) -> Seq<YearV>
    decreases s.len(),
{
    if s.len() == 0 {
        Seq::empty()
    } else {
        let rest = group_by_year(s.drop_last());
        let x = s.last();
        if rest.len() > 0 && rest.last().year == x.year {
            rest.update(rest.len() - 1, YearV { year: x.year, issues: rest.last().issues.push(x) })
        } else {
            rest.push(YearV { year: x.year, issues: seq![x] })
        }
    }
}

/// The issues of all year entries, concatenated in order.
pub open spec fn flatten_years(gs: Seq<YearV>) -> Seq<IssueV>
    decreases gs.len(),
{
    if gs.len() == 0 {
        Seq::empty()
    } else {
        flatten_years(gs.drop_last()) + gs.last().issues
    }
}

/// Grouping loses nothing and invents nothing: flattening the year entries
/// gives back the input sequence; every run is non-empty; and every issue
/// sits in a run labelled with its own year.
pub proof fn lemma_group_by_year_props(s: Seq<IssueV>)
    ensures
        flatten_years(group_by_year(s)) == s,
        forall|k: int|
            0 <= k < group_by_year(s).len() ==> (#[trigger] group_by_year(s)[k]).issues.len() > 0,
        forall|k: int, a: int|
            0 <= k < group_by_year(s).len() && 0 <= a < group_by_year(s)[k].issues.len()
                ==> (#[trigger] group_by_year(s)[k].issues[a]).year == group_by_year(s)[k].year,
    decreases s.len(),
{
    if s.len() == 0 {
        assert(flatten_years(group_by_year(s)) =~= s);
    } else {
        let t = s.drop_last();
        let x = s.last();
        lemma_group_by_year_props(t);
        let rest = group_by_year(t);
        let g = group_by_year(s);
        if rest.len() > 0 && rest.last().year == x.year {
            assert(g.drop_last() =~= rest.drop_last());
            assert(g.last() == YearV {
                year: x.year,
                issues: rest.last().issues.push(x),
            });
            assert(flatten_years(g) == flatten_years(rest.drop_last()) + rest.last().issues.push(
                x,
            ));
            assert(flatten_years(g) =~= (flatten_years(rest.drop_last()) + rest.last().issues).push(
                x,
            ));
            assert(flatten_years(g) =~= s);
            assert(forall|k: int| 0 <= k < g.len() - 1 ==> g[k] == rest[k]);
        } else {
            assert(g.drop_last() =~= rest);
            assert(flatten_years(g) =~= s);
            assert(forall|k: int| 0 <= k < g.len() - 1 ==> g[k] == rest[k]);
        }
    }
}

/// Within every year run of the grouped output the volumes ascend strictly,
/// for any input that is sorted by volume and has no duplicate volume — in
/// particular for any ordering of a fixed issue set after `Config::sort`.
pub proof fn lemma_grouped_runs_strictly_ascend(s: Seq<IssueV>)
    requires
        sorted_by_volume(s),
        distinct_volumes(s),
    ensures
        forall|k: int, a: int, b: int|
            0 <= k < group_by_year(s).len() && 0 <= a < b < group_by_year(s)[k].issues.len()
                ==> (#[trigger] group_by_year(s)[k].issues[a]).volume < (
            #[trigger] group_by_year(s)[k].issues[b]).volume,
    decreases s.len(),
{
    if s.len() > 0 {
        let t = s.drop_last();
        let x = s.last();
        assert(forall|i: int| 0 <= i < t.len() ==> t[i] == s[i]);
        lemma_grouped_runs_strictly_ascend(t);
        lemma_group_by_year_props(t);
        let rest = group_by_year(t);
        let g = group_by_year(s);
        if rest.len() > 0 && rest.last().year == x.year {
            let run = rest.last().issues;
            let u = flatten_years(rest.drop_last());
            assert(flatten_years(rest) == u + run);
            assert(u + run == t);
            assert(u.len() + run.len() == t.len());
            assert(forall|a: int|
                0 <= a < run.len() ==> (u + run)[u.len() + a] == #[trigger] run[a]);
            assert(forall|a: int| 0 <= a < run.len() ==> #[trigger] run[a] == t[u.len() + a]);
            assert(forall|a: int| 0 <= a < run.len() ==> (#[trigger] run[a]).volume < x.volume)
                by {
                assert(forall|a: int|
                    0 <= a < run.len() ==> {
                        let i = u.len() + a;
                        0 <= i < s.len() - 1 && #[trigger] run[a] == s[i]
                    });
            };
            assert(g.drop_last() =~= rest.drop_last());
            assert(forall|k: int| 0 <= k < g.len() - 1 ==> g[k] == rest[k]);
            assert(g.last().issues == run.push(x));
        } else {
            assert(g.drop_last() =~= rest);
            assert(forall|k: int| 0 <= k < g.len() - 1 ==> g[k] == rest[k]);
            assert(g.last().issues == seq![x]);
        }
    }
}

/// The issues carrying a given volume number, in their order of appearance.
pub open spec fn filter_volume(s: Seq<IssueV>, v: u8) -> Seq<IssueV> {
    s.filter(|x: IssueV| x.volume == v)
}

proof fn lemma_filter_volume_none(s: Seq<IssueV>, v: u8)
    requires
        forall|i: int| 0 <= i < s.len() ==> (#[trigger] s[i]).volume != v,
    ensures
        filter_volume(s, v) == Seq::<IssueV>::empty(),
    decreases s.len(),
{
    reveal(Seq::filter);
    if s.len() > 0 {
        lemma_filter_volume_none(s.drop_last(), v);
    }
    assert(filter_volume(s, v) =~= Seq::<IssueV>::empty());
}

proof fn lemma_filter_volume_single(x: IssueV, v: u8)
    ensures
        x.volume == v ==> filter_volume(seq![x], v) == seq![x],
        x.volume != v ==> filter_volume(seq![x], v) == Seq::<IssueV>::empty(),
{
    reveal_with_fuel(Seq::filter, 2);
    assert(seq![x].drop_last() =~= Seq::<IssueV>::empty());
    if x.volume == v {
        assert(filter_volume(seq![x], v) =~= seq![x]);
    } else {
        assert(filter_volume(seq![x], v) =~= Seq::<IssueV>::empty());
    }
}

/// Removing the leftmost issue of minimal volume takes away the head of its
/// own volume class and leaves every other volume class untouched.
proof fn lemma_filter_volume_remove(s: Seq<IssueV>, m: int)
    requires
        0 <= m < s.len(),
        forall|t: int| 0 <= t < m ==> (#[trigger] s[t]).volume > s[m].volume,
    ensures
        filter_volume(s, s[m].volume) == seq![s[m]] + filter_volume(s.remove(m), s[m].volume),
        forall|v: u8|
            v != s[m].volume ==> #[trigger] filter_volume(s.remove(m), v) == filter_volume(s, v),
{
    broadcast use vstd::seq_lib::group_seq_lib_default;

    let x = s[m];
    let a = s.subrange(0, m);
    let b = s.subrange(m + 1, s.len() as int);
    assert(s =~= a + (seq![x] + b));
    assert(s.remove(m) =~= a + b);
    let v0 = x.volume;
    lemma_filter_volume_none(a, v0);
    lemma_filter_volume_single(x, v0);
    assert(filter_volume(a + (seq![x] + b), v0) == filter_volume(a, v0) + filter_volume(
        seq![x] + b,
        v0,
    ));
    assert(filter_volume(seq![x] + b, v0) == filter_volume(seq![x], v0) + filter_volume(b, v0));
    assert(filter_volume(a + b, v0) == filter_volume(a, v0) + filter_volume(b, v0));
    assert(filter_volume(s, v0) =~= seq![x] + filter_volume(s.remove(m), v0));
    assert forall|v: u8| v != v0 implies #[trigger] filter_volume(s.remove(m), v) == filter_volume(
        s,
        v,
    ) by {
        lemma_filter_volume_single(x, v);
        assert(filter_volume(a + (seq![x] + b), v) == filter_volume(a, v) + (filter_volume(
            seq![x],
            v,
        ) + filter_volume(b, v)));
        assert(filter_volume(a + b, v) == filter_volume(a, v) + filter_volume(b, v));
        assert(filter_volume(s.remove(m), v) =~= filter_volume(s, v));
    }
}

proof fn lemma_count_two_gives_two_indices(c: Seq<IssueV>, v: IssueV)
    requires
        c.to_multiset().count(v) >= 2,
    ensures
        exists|i: int, j: int|
            0 <= i < j < c.len() && #[trigger] c[i].volume == #[trigger] c[j].volume,
{
    assert(c.contains(v));
    let i1 = choose|i: int| 0 <= i < c.len() && c[i] == v;
    let c2 = c.remove(i1);
    assert(c2.to_multiset() =~= c.to_multiset().remove(v));
    assert(c2.to_multiset().count(v) >= 1);
    assert(c2.contains(v));
    let i2 = choose|i: int| 0 <= i < c2.len() && c2[i] == v;
    if i2 < i1 {
        assert(c[i2] == v && c[i1] == v);
        assert(c[i2].volume == c[i1].volume);
    } else {
        assert(c[i2 + 1] == v && c[i1] == v);
        assert(c[i1].volume == c[i2 + 1].volume);
    }
}

/// Reordering a catalog cannot introduce a duplicate volume: any sequence
/// holding exactly the issues of a catalog with pairwise distinct volumes
/// has pairwise distinct volumes itself.
pub proof fn lemma_permutation_keeps_distinct_volumes(c: Seq<IssueV>, s: Seq<IssueV>)
    requires
        s.to_multiset() == c.to_multiset(),
        distinct_volumes(c),
    ensures
        distinct_volumes(s),
{
    assert forall|i: int, j: int|
        #![trigger s[i], s[j]]
        0 <= i < j < s.len() implies s[i].volume != s[j].volume by {
        if s[i].volume == s[j].volume {
            if s[i] == s[j] {
                let v = s[i];
                let s2 = s.remove(j);
                assert(s2.to_multiset() =~= s.to_multiset().remove(v));
                assert(s2[i] == v);
                assert(s2.contains(v));
                assert(s2.to_multiset().count(v) >= 1);
                assert(s.to_multiset().count(v) >= 2);
                lemma_count_two_gives_two_indices(c, v);
                assert(false);
            } else {
                assert(s.contains(s[i]) && s.contains(s[j]));
                assert(c.to_multiset().count(s[i]) > 0 && c.to_multiset().count(s[j]) > 0);
                assert(c.contains(s[i]) && c.contains(s[j]));
                let p1 = choose|p: int| 0 <= p < c.len() && c[p] == s[i];
                let p2 = choose|p: int| 0 <= p < c.len() && c[p] == s[j];
                assert(p1 != p2);
                assert(c[p1].volume == c[p2].volume);
                assert(false);
            }
        }
    }
}

/// For any input ordering of a fixed issue set with pairwise distinct
/// volumes, sorting by volume and then grouping yields year runs whose
/// issue volumes ascend strictly.
pub proof fn lemma_pipeline_runs_strictly_ascend(c: Seq<IssueV>, s: Seq<IssueV>)
    requires
        distinct_volumes(c),
        s.to_multiset() == c.to_multiset(),
        sorted_by_volume(s),
    ensures
        forall|k: int, a: int, b: int|
            0 <= k < group_by_year(s).len() && 0 <= a < b < group_by_year(s)[k].issues.len()
                ==> (#[trigger] group_by_year(s)[k].issues[a]).volume < (
            #[trigger] group_by_year(s)[k].issues[b]).volume,
{
    lemma_permutation_keeps_distinct_volumes(c, s);
    lemma_grouped_runs_strictly_ascend(s);
}

impl Config {
    /// Sorts the catalog by volume number — the only ordering key issues
    /// have — keeping exactly the issues of the input.
    pub fn sort(self) -> (r: Config)
        ensures
            r@.to_multiset() == self@.to_multiset(),
            sorted_by_volume(r@),
            forall|v: u8| #[trigger] filter_volume(r@, v) == filter_volume(self@, v),
    {
        proof {
            self.view_is();
        }
        let ghost orig: Seq<IssueV> = self@;
        let mut rest = self.0;
        let mut out: Vec<Issue> = Vec::new();
        proof {
            assert(issue_views(out@) =~= Seq::<IssueV>::empty());
            assert(issue_views(rest@) == orig);
            assert(issue_views(out@).to_multiset().add(issue_views(rest@).to_multiset())
                =~= orig.to_multiset());
            assert forall|v: u8|
                #[trigger] filter_volume(issue_views(out@), v) + filter_volume(
                    issue_views(rest@),
                    v,
                ) == filter_volume(orig, v) by {
                lemma_filter_volume_none(issue_views(out@), v);
                assert(Seq::<IssueV>::empty() + filter_volume(orig, v) =~= filter_volume(orig, v));
            }
        }
        while rest.len() > 0
            invariant
                sorted_by_volume(issue_views(out@)),
                issue_views(out@).to_multiset().add(issue_views(rest@).to_multiset())
                    == orig.to_multiset(),
                forall|a: int, b: int|
                    #![trigger issue_views(out@)[a], issue_views(rest@)[b]]
                    0 <= a < out@.len() && 0 <= b < rest@.len() ==> issue_views(out@)[a].volume
                        <= issue_views(rest@)[b].volume,
                forall|v: u8|
                    #[trigger] filter_volume(issue_views(out@), v) + filter_volume(
                        issue_views(rest@),
                        v,
                    ) == filter_volume(orig, v),
            decreases rest@.len(),
        {
            let ghost restv = issue_views(rest@);
            let ghost outv = issue_views(out@);
            let mut m: usize = 0;
            let mut k: usize = 1;
            while k < rest.len()
                invariant
                    rest@.len() > 0,
                    m < rest@.len(),
                    k <= rest@.len(),
                    restv == issue_views(rest@),
                    forall|t: int|
                        0 <= t < k ==> restv[m as int].volume <= (#[trigger] restv[t]).volume,
                    forall|t: int|
                        0 <= t < m ==> (#[trigger] restv[t]).volume > restv[m as int].volume,
                decreases rest@.len() - k,
            {
                if !rest[m].le_by_volume(&rest[k]) {
                    m = k;
                }
                k = k + 1;
            }
            let x = rest.remove(m);
            out.push(x);
            proof {
                assert(x@ == restv[m as int]);
                assert(issue_views(rest@) =~= restv.remove(m as int));
                assert(issue_views(out@) =~= outv.push(x@));
                assert(restv.contains(x@));
                assert(restv.to_multiset().count(x@) > 0);
                assert(outv.push(x@).to_multiset().add(restv.remove(m as int).to_multiset())
                    =~= outv.to_multiset().add(restv.to_multiset()));
                assert(forall|b: int|
                    0 <= b < restv.remove(m as int).len() ==> x@.volume <= (
                    #[trigger] restv.remove(m as int)[b]).volume);
                assert(sorted_by_volume(outv.push(x@)));
                lemma_filter_volume_remove(restv, m as int);
                assert forall|v: u8|
                    #[trigger] filter_volume(outv.push(x@), v) + filter_volume(
                        restv.remove(m as int),
                        v,
                    ) == filter_volume(orig, v) by {
                    broadcast use vstd::seq_lib::group_seq_lib_default;

                    lemma_filter_volume_single(x@, v);
                    assert(outv.push(x@) =~= outv + seq![x@]);
                    assert(filter_volume(outv + seq![x@], v) == filter_volume(outv, v)
                        + filter_volume(seq![x@], v));
                    if v == x@.volume {
                        assert(filter_volume(restv, v) == seq![x@] + filter_volume(
                            restv.remove(m as int),
                            v,
                        ));
                        assert((filter_volume(outv, v) + seq![x@]) + filter_volume(
                            restv.remove(m as int),
                            v,
                        ) =~= filter_volume(outv, v) + filter_volume(restv, v));
                    } else {
                        assert(filter_volume(outv + seq![x@], v) =~= filter_volume(outv, v));
                    }
                }
            }
        }
        proof {
            assert(issue_views(rest@) =~= Seq::<IssueV>::empty());
            assert(issue_views(rest@).to_multiset() =~= Multiset::<IssueV>::empty());
            assert(issue_views(out@).to_multiset().add(Multiset::<IssueV>::empty())
                =~= issue_views(out@).to_multiset());
            assert forall|v: u8|
                #[trigger] filter_volume(issue_views(out@), v) == filter_volume(orig, v) by {
                lemma_filter_volume_none(issue_views(rest@), v);
                assert(filter_volume(issue_views(out@), v) + Seq::<IssueV>::empty()
                    =~= filter_volume(issue_views(out@), v));
            }
        }
        Config::new(out)
    }

    /// Groups the catalog into maximal consecutive same-year runs, in the
    /// order the runs appear. Two runs of the same year arise whenever that
    /// year's issues are not contiguous; they are not merged.
    pub fn transform(self) -> (m: Mirror)
        ensures
            m@ == group_by_year(self@),
    {
        proof {
            self.view_is();
        }
        let ghost orig: Seq<IssueV> = self@;
        let mut rest = self.0;
        let mut years: Vec<Year> = Vec::new();
        let mut cur: Vec<Issue> = Vec::new();
        let mut cur_year: u16 = 0;
        proof {
            assert(issue_views(rest@) == orig);
            assert(issue_views(rest@) =~= orig.skip(0));
        }
        while rest.len() > 0
            invariant
                rest@.len() <= orig.len(),
                issue_views(rest@) == orig.skip(orig.len() - rest@.len()),
                cur@.len() == 0 ==> rest@.len() == orig.len() && years@.len() == 0,
                cur@.len() > 0 ==> group_by_year(orig.take(orig.len() - rest@.len()))
                    == year_views(years@) + seq![
                    YearV { year: cur_year, issues: issue_views(cur@) },
                ],
            decreases rest@.len(),
        {
            let ghost i = orig.len() - rest@.len();
            let ghost restv = issue_views(rest@);
            let ghost yearsv = year_views(years@);
            let ghost curv = issue_views(cur@);
            let ghost cy = cur_year;
            let x = rest.remove(0);
            proof {
                assert(x@ == restv[0]);
                assert(x@ == orig[i as int]);
                assert(issue_views(rest@) =~= restv.remove(0));
                assert(issue_views(rest@) =~= orig.skip(i + 1));
                assert(orig.take(i + 1).drop_last() =~= orig.take(i as int));
                assert(orig.take(i + 1).last() == orig[i as int]);
            }
            if cur.len() == 0 {
                cur_year = x.year();
                cur.push(x);
                proof {
                    assert(i == 0);
                    assert(group_by_year(orig.take(0)) =~= Seq::<YearV>::empty());
                    assert(issue_views(cur@) =~= seq![x@]);
                    assert(group_by_year(orig.take(1)) =~= Seq::<YearV>::empty().push(
                        YearV { year: x@.year, issues: seq![x@] },
                    ));
                    assert(group_by_year(orig.take(1)) =~= year_views(years@) + seq![
                        YearV { year: cur_year, issues: issue_views(cur@) },
                    ]);
                }
            } else if x.year() == cur_year {
                cur.push(x);
                proof {
                    let gprev = group_by_year(orig.take(i as int));
                    assert(gprev == yearsv + seq![YearV { year: cur_year, issues: curv }]);
                    assert(gprev.len() > 0);
                    assert(gprev.last() == YearV { year: cur_year, issues: curv });
                    assert(gprev.last().year == x@.year);
                    assert(group_by_year(orig.take(i + 1)) == gprev.update(
                        gprev.len() - 1,
                        YearV { year: x@.year, issues: gprev.last().issues.push(x@) },
                    ));
                    assert(issue_views(cur@) =~= curv.push(x@));
                    assert(gprev.update(
                        gprev.len() - 1,
                        YearV { year: x@.year, issues: curv.push(x@) },
                    ) =~= yearsv + seq![YearV { year: cur_year, issues: curv.push(x@) }]);
                }
            } else {
                let finished = cur;
                years.push(Year::make(cur_year, finished));
                cur = Vec::new();
                cur_year = x.year();
                cur.push(x);
                proof {
                    let gprev = group_by_year(orig.take(i as int));
                    assert(gprev == yearsv + seq![YearV { year: cy, issues: curv }]);
                    assert(gprev.len() > 0);
                    assert(gprev.last() == YearV { year: cy, issues: curv });
                    assert(gprev.last().year != x@.year);
                    assert(group_by_year(orig.take(i + 1)) == gprev.push(
                        YearV { year: x@.year, issues: seq![x@] },
                    ));
                    assert(year_views(years@) =~= yearsv.push(YearV { year: cy, issues: curv }));
                    assert(issue_views(cur@) =~= seq![x@]);
                    assert(gprev.push(YearV { year: x@.year, issues: seq![x@] }) =~= year_views(
                        years@,
                    ) + seq![YearV { year: cur_year, issues: issue_views(cur@) }]);
                }
            }
        }
        let ghost yearsv = year_views(years@);
        let ghost curv = issue_views(cur@);
        if cur.len() > 0 {
            let finished = cur;
            years.push(Year::make(cur_year, finished));
            proof {
                assert(orig.take(orig.len() - 0) =~= orig);
                assert(group_by_year(orig) == yearsv + seq![
                    YearV { year: cur_year, issues: curv },
                ]);
                assert(year_views(years@) =~= yearsv.push(YearV { year: cur_year, issues: curv }));
                assert(year_views(years@) =~= group_by_year(orig));
            }
        } else {
            proof {
                assert(orig.len() == 0);
                assert(orig.take(0) =~= orig);
                assert(group_by_year(orig) =~= year_views(years@));
            }
        }
        Mirror::make(years)
    }
}

} // verus!
