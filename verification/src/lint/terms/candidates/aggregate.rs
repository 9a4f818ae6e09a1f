//! Grouping raw occurrences into one candidate per surface.
use super::model::{completed, CandidateOrder, CandidateView, RawTermOccurrence, RawView, TermCandidate, TermCandidateEvidence};
use crate::latex::span::{position_lt, LocatedRange};
use crate::order::{stable_sort, stable_sorted, views};
use crate::text::unicode::str_eq;
use vstd::prelude::*;

verus! {

/// All occurrences of one surface: the earliest location and every piece of evidence.
pub struct GroupView {
    pub surface: Seq<char>,
    pub location: LocatedRange,
    pub evidence: Seq<TermCandidateEvidence>,
}

/// Index of the group of this surface, if any.
pub open spec fn group_index(gs: Seq<GroupView>, surface: Seq<char>) -> Option<int>
    decreases gs.len(),
{
    if gs.len() == 0 {
        None
    } else if gs.last().surface == surface {
        Some(gs.len() - 1)
    } else {
        group_index(gs.drop_last(), surface)
    }
}

/// The groups of the occurrences, in order of each surface's first
/// occurrence: the location is the earliest in reading order (the first
/// among equals), the evidence is all of it in occurrence order.
pub open spec fn groups_of(occ: Seq<RawView>) -> Seq<GroupView>
    decreases occ.len(),
{
    if occ.len() == 0 {
        Seq::empty()
    } else {
        let prev = groups_of(occ.drop_last());
        let o = occ.last();
        match group_index(prev, o.surface) {
            Some(i) => prev.update(
                i,
                GroupView {
                    surface: o.surface,
                    location: if position_lt(o.location.spec_position(), prev[i].location.spec_position()) {
                        o.location
                    } else {
                        prev[i].location
                    },
                    evidence: prev[i].evidence + o.evidence,
                },
            ),
            None => prev.push(GroupView { surface: o.surface, location: o.location, evidence: o.evidence }),
        }
    }
}

/// The candidates of the groups that carry evidence, in group order.
pub open spec fn group_candidates(gs: Seq<GroupView>) -> Seq<CandidateView>
    decreases gs.len(),
{
    if gs.len() == 0 {
        Seq::empty()
    } else {
        let g = gs.last();
        group_candidates(gs.drop_last()) + if g.evidence.len() > 0 {
            seq![completed(g.surface, g.location, g.evidence)]
        } else {
            Seq::empty()
        }
    }
}

/// One candidate per surface, ordered by reading position and then surface.
pub open spec fn spec_group(occ: Seq<RawView>) -> Seq<CandidateView> {
    stable_sorted::<TermCandidate, CandidateOrder>(group_candidates(groups_of(occ)))
}

proof fn lemma_group_index(gs: Seq<GroupView>, surface: Seq<char>)
    ensures
        group_index(gs, surface) matches Some(i) ==> 0 <= i < gs.len() && gs[i].surface == surface,
    decreases gs.len(),
{
    if gs.len() > 0 {
        lemma_group_index(gs.drop_last(), surface);
    }
}

/// The exec form of a group.
struct Group {
    surface: String,
    location: LocatedRange,
    evidence: Vec<TermCandidateEvidence>,
}

spec fn group_views(gs: Seq<Group>) -> Seq<GroupView> {
    gs.map_values(|g: Group| GroupView { surface: g.surface@, location: g.location, evidence: g.evidence@ })
}

fn find_group(gs: &Vec<Group>, surface: &str) -> (r: Option<usize>)
    ensures
        match r {
            Some(i) => group_index(group_views(gs@), surface@) == Some(i as int),
            None => group_index(group_views(gs@), surface@) is None,
        },
{
    let ghost gv = group_views(gs@);
    let mut j = gs.len();
    assert(gv.take(j as int) =~= gv);
    while j > 0
        invariant
            j <= gs@.len(),
            gv == group_views(gs@),
            group_index(gv, surface@) == group_index(gv.take(j as int), surface@),
        decreases j,
    {
        proof {
            assert(gv.take(j as int).drop_last() =~= gv.take(j - 1));
        }
        if str_eq(gs[j - 1].surface.as_str(), surface) {
            return Some(j - 1);
        }
        j = j - 1;
    }
    None
}

/// Groups the occurrences by surface into candidates ordered by reading
/// position and then surface; a surface without evidence yields none.
pub fn group(occurrences: Vec<RawTermOccurrence>) -> (r: Vec<TermCandidate>)
    ensures
        views(r@) == spec_group(views(occurrences@)),
{
    let ghost ov = views(occurrences@);
    let mut groups: Vec<Group> = Vec::new();
    let mut i: usize = 0;
    while i < occurrences.len()
        invariant
            i <= occurrences@.len(),
            ov == views(occurrences@),
            group_views(groups@) == groups_of(ov.take(i as int)),
        decreases occurrences@.len() - i,
    {
        let o = &occurrences[i];
        proof {
            assert(ov.take(i + 1).drop_last() =~= ov.take(i as int));
            assert(ov.take(i + 1).last() == o@);
        }
        let ghost before = group_views(groups@);
        match find_group(&groups, o.surface.as_str()) {
            Some(j) => {
                proof {
                    lemma_group_index(before, o.surface@);
                }
                let ghost old_groups = groups@;
                let mut g = groups.remove(j);
                assert(g.location == before[j as int].location && g.evidence@ == before[j as int].evidence && g.surface@ == before[j as int].surface);
                if o.location.position().precedes(&g.location.position()) {
                    g.location = o.location.copy();
                }
                let mut k: usize = 0;
                let ghost ev0 = g.evidence@;
                let ghost gs0 = g.surface;
                let ghost gl0 = g.location;
                while k < o.evidence.len()
                    invariant
                        k <= o.evidence@.len(),
                        g.surface == gs0,
                        g.location == gl0,
                        g.evidence@ == ev0 + o.evidence@.take(k as int),
                    decreases o.evidence@.len() - k,
                {
                    g.evidence.push(o.evidence[k]);
                    assert(ev0 + o.evidence@.take(k + 1) =~= (ev0 + o.evidence@.take(k as int)).push(o.evidence@[k as int]));
                    k = k + 1;
                }
                assert(o.evidence@.take(k as int) =~= o.evidence@);
                let ghost gnew = GroupView { surface: g.surface@, location: g.location, evidence: g.evidence@ };
                groups.insert(j, g);
                proof {
                    assert(groups@ =~= old_groups.update(j as int, g));
                    assert(group_views(groups@) =~= before.update(j as int, gnew));
                    let prev = groups_of(ov.take(i as int));
                    assert(prev == before);
                    assert(gnew.surface == o@.surface);
                    assert(gnew.evidence == before[j as int].evidence + o@.evidence);
                    assert(gnew.location == if position_lt(o@.location.spec_position(), before[j as int].location.spec_position()) {
                        o@.location
                    } else {
                        before[j as int].location
                    });
                    assert(group_views(groups@) =~= groups_of(ov.take(i + 1)));
                }
            },
            None => {
                let g = Group {
                    surface: o.surface.clone(),
                    location: o.location.copy(),
                    evidence: super::model::copy_evidence(&o.evidence),
                };
                groups.push(g);
                proof {
                    assert(group_views(groups@) =~= before.push(GroupView { surface: o@.surface, location: o@.location, evidence: o@.evidence }));
                }
            },
        }
        i = i + 1;
    }
    assert(ov.take(i as int) =~= ov);
    let ghost gv = group_views(groups@);
    let mut candidates: Vec<TermCandidate> = Vec::new();
    let mut input = groups;
    let n = input.len();
    let mut done: usize = 0;
    assert(gv.take(0) =~= Seq::<GroupView>::empty());
    assert(group_views(input@) =~= gv.skip(0));
    while input.len() > 0
        invariant
            done + input@.len() == n,
            n == gv.len(),
            group_views(input@) == gv.skip(done as int),
            views(candidates@) == group_candidates(gv.take(done as int)),
        decreases input@.len(),
    {
        let ghost old_input = input@;
        let g = input.remove(0);
        proof {
            assert(input@ =~= old_input.subrange(1, old_input.len() as int));
            assert forall|k: int| 0 <= k < input@.len() implies group_views(input@)[k] == gv.skip(done + 1)[k] by {
                assert(group_views(old_input)[k + 1] == gv.skip(done as int)[k + 1]);
            }
            assert(gv.take(done + 1).drop_last() =~= gv.take(done as int));
            assert(gv.skip(done as int)[0] == gv[done as int]);
            assert(gv.take(done + 1).last() == gv[done as int]);
            assert(group_views(input@) =~= gv.skip(done + 1));
        }
        let ghost gview = GroupView { surface: g.surface@, location: g.location, evidence: g.evidence@ };
        let raw = RawTermOccurrence { surface: g.surface, location: g.location, evidence: g.evidence };
        let ghost before = candidates@;
        match TermCandidate::try_from(raw) {
            Ok(c) => {
                candidates.push(c);
                proof {
                    crate::order::lemma_views_push(before, c);
                    assert(c@ == completed(gview.surface, gview.location, gview.evidence));
                    assert(views(candidates@) =~= group_candidates(gv.take(done + 1)));
                }
            },
            Err(_) => {
                proof {
                    assert(views(candidates@) =~= group_candidates(gv.take(done + 1)));
                }
            },
        }
        done = done + 1;
    }
    assert(gv.take(done as int) =~= gv);
    stable_sort::<TermCandidate, CandidateOrder>(candidates)
}

} // verus!
