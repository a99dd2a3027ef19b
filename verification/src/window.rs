//! The target windower: page-level skip and limit over the concatenated,
//! page-ordered listing entries. The skip is exact only in whole pages; a
//! skip remainder within a page is not applied, a documented approximation.
use vstd::prelude::*;

use crate::data::PostBuf;
use crate::extract::post_buf_model;
use crate::extract::TargetModel;

verus! {

/// The number of targets one full results page carries: a declared
/// property of the remote listing format.
pub const TARGETS_PER_PAGE: usize = 21;

/// Ceiling division, written with a branch.
pub fn div_ceil(lhs: usize, rhs: usize) -> (r: usize)
    requires
        rhs >= 1,
    ensures
        r == lhs as int / rhs as int + if lhs as int % rhs as int == 0 {
            0int
        } else {
            1int
        },
{
    proof {
        if lhs as int % rhs as int != 0 {
            assert(rhs >= 2);
            assert((lhs as int) / (rhs as int) < lhs as int) by (nonlinear_arith)
                requires
                    rhs >= 2,
                    lhs as int % rhs as int != 0,
            ;
        }
    }
    lhs / rhs + if lhs % rhs == 0 {
        0
    } else {
        1
    }
}

/// Ceiling division that stands for "no cap" on a zero limit.
pub fn div_ceil_patch(lhs: usize, rhs: usize) -> (r: usize)
    requires
        rhs >= 1,
    ensures
        lhs != 0 ==> r == lhs as int / rhs as int + if lhs as int % rhs as int == 0 {
            0int
        } else {
            1int
        },
        lhs == 0 ==> r == usize::MAX,
{
    if lhs != 0 {
        div_ceil(lhs, rhs)
    } else {
        usize::MAX
    }
}

/// How many whole pages a skip count covers.
pub fn pages_to_skip(skip: usize) -> (r: usize)
    ensures
        r == skip as int / 21,
{
    skip / TARGETS_PER_PAGE
}

/// The models of the entries of one fetched page.
pub open spec fn page_model(v: Vec<PostBuf>) -> Seq<TargetModel> {
    v@.map_values(|p: PostBuf| post_buf_model(p))
}

/// The models of a list of fetched pages.
pub open spec fn pages_model(pp: Seq<Vec<PostBuf>>) -> Seq<Seq<TargetModel>> {
    pp.map_values(|v: Vec<PostBuf>| page_model(v))
}

/// The windowed targets: entries of the pages in order, truncated once
/// the count reaches `limit` when a limit is set; zero means unbounded.
pub open spec fn window_take(pages: Seq<Seq<TargetModel>>, limit: nat) -> Seq<TargetModel>
    decreases pages.len(),
{
    if pages.len() == 0 {
        Seq::empty()
    } else {
        let first = pages[0];
        if limit == 0 {
            first + window_take(pages.skip(1), 0)
        } else if first.len() >= limit {
            first.take(limit as int)
        } else {
            first + window_take(pages.skip(1), (limit - first.len()) as nat)
        }
    }
}

/// The full windowing: whole pages skipped first, then entries taken in
/// page order up to the limit.
pub open spec fn window_spec(pages: Seq<Seq<TargetModel>>, skip: nat, limit: nat) -> Seq<
    TargetModel,
> {
    let drop = skip / 21;
    if drop >= pages.len() {
        Seq::empty()
    } else {
        window_take(pages.skip(drop as int), limit)
    }
}

/// Whether the windower still wants another page's entries.
pub fn window_wants_more(collected: usize, limit: usize) -> (r: bool)
    ensures
        r == (limit == 0 || collected < limit),
{
    limit == 0 || collected < limit
}

/// Applies skip and limit over already-fetched pages; the whole-page skip
/// comes first, then entries accumulate in page order and stop at the
/// limit.
pub fn apply_window(pages: Vec<Vec<PostBuf>>, skip: usize, limit: usize) -> (r: Vec<PostBuf>)
    ensures
        r@.map_values(|p: PostBuf| post_buf_model(p)) == window_spec(
            pages_model(pages@),
            skip as nat,
            limit as nat,
        ),
{
    let ghost pm0 = pages_model(pages@);
    let d = pages_to_skip(skip);
    let mut pages = pages;
    let mut dsf: usize = 0;
    proof {
        assert(pages_model(pages@) =~= pm0.skip(0));
    }
    while dsf < d && pages.len() > 0
        invariant
            0 <= dsf <= d,
            dsf <= pm0.len(),
            d == skip as nat / 21,
            pages_model(pages@) == pm0.skip(dsf as int),
        decreases d - dsf,
    {
        let ghost before = pages@;
        let _ = pages.remove(0);
        proof {
            assert(pages_model(pages@) =~= pages_model(before).skip(1));
            assert(pm0.skip(dsf as int).skip(1) =~= pm0.skip(dsf + 1));
        }
        dsf = dsf + 1;
    }
    let ghost goal = window_spec(pm0, skip as nat, limit as nat);
    proof {
        if dsf < d {
            // the pages ran out inside the whole-page skip
            assert(pages@.len() == 0);
            assert(pages_model(pages@) =~= Seq::<Seq<TargetModel>>::empty());
            assert(pm0.skip(dsf as int).len() == 0);
            assert(pm0.len() == dsf);
            assert(goal =~= Seq::<TargetModel>::empty());
            assert(window_take(pages_model(pages@), limit as nat) =~= Seq::<
                TargetModel,
            >::empty());
        } else {
            if d >= pm0.len() {
                assert(pm0.skip(d as int).len() == 0);
                assert(pages_model(pages@) =~= Seq::<Seq<TargetModel>>::empty());
                assert(goal =~= Seq::<TargetModel>::empty());
                assert(window_take(pages_model(pages@), limit as nat) =~= Seq::<
                    TargetModel,
                >::empty());
            } else {
                assert(goal == window_take(pages_model(pages@), limit as nat));
            }
        }
    }
    let mut acc: Vec<PostBuf> = Vec::new();
    let mut limit_left = limit;
    proof {
        assert(acc@.map_values(|p: PostBuf| post_buf_model(p)) + window_take(
            pages_model(pages@),
            if limit == 0 {
                0nat
            } else {
                limit_left as nat
            },
        ) =~= window_take(
            pages_model(pages@),
            if limit == 0 {
                0nat
            } else {
                limit_left as nat
            },
        ));
    }
    loop
        invariant_except_break
            limit != 0 ==> 1 <= limit_left <= limit,
            acc@.map_values(|p: PostBuf| post_buf_model(p)) + window_take(
                pages_model(pages@),
                if limit == 0 {
                    0nat
                } else {
                    limit_left as nat
                },
            ) == goal,
        ensures
            acc@.map_values(|p: PostBuf| post_buf_model(p)) == goal,
        decreases pages@.len(),
    {
        if pages.len() == 0 {
            proof {
                assert(pages_model(pages@).len() == 0);
                assert(acc@.map_values(|p: PostBuf| post_buf_model(p)) + window_take(
                    pages_model(pages@),
                    if limit == 0 {
                        0nat
                    } else {
                        limit_left as nat
                    },
                ) =~= acc@.map_values(|p: PostBuf| post_buf_model(p)));
            }
            break;
        }
        let ghost before = pages@;
        let ghost old_map = acc@.map_values(|p: PostBuf| post_buf_model(p));
        let mut page = pages.remove(0);
        proof {
            assert(pages_model(pages@) =~= pages_model(before).skip(1));
            assert(page_model(page) == pages_model(before)[0]);
        }
        let ghost pg = page_model(page);
        let plen0 = page.len();
        proof {
            assert(pg.len() == plen0);
        }
        let mut taken: usize = 0;
        while page.len() > 0 && (limit == 0 || taken < limit_left)
            invariant
                limit != 0 ==> taken <= limit_left,
                pg.len() == plen0,
                taken + page@.len() == pg.len(),
                page_model(page) == pg.skip(taken as int),
                acc@.map_values(|p: PostBuf| post_buf_model(p)) == old_map + pg.take(
                    taken as int,
                ),
            decreases page@.len(),
        {
            let ghost pbefore = page@;
            let ghost abefore = acc@.map_values(|p: PostBuf| post_buf_model(p));
            let x = page.remove(0);
            proof {
                assert(post_buf_model(x) == pg.skip(taken as int)[0]);
            }
            acc.push(x);
            proof {
                let ghost pm_before = pbefore.map_values(|p: PostBuf| post_buf_model(p));
                assert(pm_before == pg.skip(taken as int));
                assert(page@ =~= pbefore.skip(1));
                assert forall|q: int|
                    0 <= q < page_model(page).len() implies page_model(page)[q] == pg.skip(
                    taken + 1,
                )[q] by {
                    assert(page@[q] == pbefore[q + 1]);
                    assert(pm_before[q + 1] == post_buf_model(pbefore[q + 1]));
                }
                assert(page_model(page) =~= pg.skip(taken + 1));
                assert(acc@.map_values(|p: PostBuf| post_buf_model(p)) =~= abefore.push(
                    pg[taken as int],
                ));
                assert(abefore.push(pg[taken as int]) =~= old_map + pg.take(taken + 1));
            }
            taken = taken + 1;
        }
        if limit != 0 && taken == limit_left {
            proof {
                // the limit is reached inside this page
                assert(pg.len() >= limit_left as int);
                assert(window_take(pages_model(before), limit_left as nat) == pg.take(
                    limit_left as int,
                ));
                assert(acc@.map_values(|p: PostBuf| post_buf_model(p)) == goal);
            }
            break;
        }
        // this page is exhausted below the limit
        proof {
            assert(page@.len() == 0);
            assert(taken == pg.len());
            assert(pg.take(taken as int) =~= pg);
        }
        if limit != 0 {
            limit_left = limit_left - taken;
            proof {
                assert(window_take(pages_model(before), (limit_left + taken) as nat) == pg
                    + window_take(pages_model(pages@), limit_left as nat));
                assert(old_map + (pg + window_take(pages_model(pages@), limit_left as nat))
                    =~= (old_map + pg) + window_take(pages_model(pages@), limit_left as nat));
            }
        } else {
            proof {
                assert(window_take(pages_model(before), 0nat) == pg + window_take(
                    pages_model(pages@),
                    0nat,
                ));
                assert(old_map + (pg + window_take(pages_model(pages@), 0nat)) =~= (old_map
                    + pg) + window_take(pages_model(pages@), 0nat));
            }
        }
    }
    acc
}



} // verus!
