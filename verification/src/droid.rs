//! One build request, and the builder configuration synthesized from it.

use vstd::prelude::*;

use crate::builder::{Builder, Group, Order, OrderView};
use crate::buildpack::{resolved_id_of, Buildpack, BuildpackView};
use crate::error::DsiError;
use crate::stack::{detect_matches, Stack};

verus! {

/// One inbound build request: the application it builds, its source, the
/// buildpacks to assemble, the environment handed to the build, and the
/// stack the builder shall target.
pub struct Droid {
    pub app_id: i64,
    pub repo: String,
    pub branch: String,
    pub buildpacks: Vec<Buildpack>,
    pub env: Vec<String>,
    pub stack: Stack,
}

/// The detection order a synthesized builder must carry for the buildpack
/// list `bps`: one group per buildpack, in input order, each a single entry
/// referencing that buildpack's derived id and carrying its optional flag.
pub open spec fn order_matches(order: Seq<OrderView>, bps: Seq<BuildpackView>) -> bool {
    &&& order.len() == bps.len()
    &&& forall|i: int|
        0 <= i < bps.len() ==> {
            &&& #[trigger] order[i].group.len() == 1
            &&& order[i].group[0].id == Some(resolved_id_of(bps[i].uri))
            &&& order[i].group[0].optional == bps[i].optional
        }
}

impl Droid {
    /// The stacks common to this request's buildpacks; see
    /// [`Stack::detect_common_stacks`].  Every buildpack must have been
    /// resolved first.
    pub fn detect_common_stacks(&self) -> (r: Result<Vec<String>, DsiError>)
        ensures
            detect_matches(self.buildpacks.deep_view(), r),
    {
        Stack::detect_common_stacks(&self.buildpacks)
    }

    /// Synthesizes the builder configuration for this request: the stack
    /// and buildpacks are carried over, and the detection order holds
    /// exactly one single-buildpack group per buildpack, in input order,
    /// each referencing that buildpack's derived id.
    pub fn create_builder(&self) -> (r: Result<Builder, String>)
        ensures
            r is Ok,
            (r matches Ok(b) ==> b@.description == Some("Created by Droid"@) && b@.stack
                == self.stack@ && b@.buildpacks == self.buildpacks.deep_view()),
            (r matches Ok(b) ==> order_matches(b@.order, self.buildpacks.deep_view())),
    {
        let ghost bps = self.buildpacks.deep_view();
        let mut order: Vec<Order> = Vec::new();
        let mut i: usize = 0;
        while i < self.buildpacks.len()
            invariant
                i <= self.buildpacks.len(),
                bps == self.buildpacks.deep_view(),
                bps.len() == self.buildpacks.len(),
                order.deep_view().len() == i,
                forall|j: int|
                    0 <= j < i ==> {
                        &&& #[trigger] order.deep_view()[j].group.len() == 1
                        &&& order.deep_view()[j].group[0].id == Some(resolved_id_of(bps[j].uri))
                        &&& order.deep_view()[j].group[0].optional == bps[j].optional
                    },
            decreases self.buildpacks.len() - i,
        {
            let bp = &self.buildpacks[i];
            proof {
                assert(bps[i as int] == bp@);
            }
            let g = Group { id: Some(bp.id()), optional: bp.optional };
            let ghost gv = g@;
            let mut group: Vec<Group> = Vec::new();
            group.push(g);
            proof {
                assert(group@.len() == 1);
                assert(group.deep_view().len() == group@.len());
                assert(group@[0] == g);
                assert(group.deep_view()[0] == gv);
            }
            let entry = Order { group };
            proof {
                assert(entry@.group.len() == 1);
                assert(entry@.group[0].id == Some(resolved_id_of(bps[i as int].uri)));
                assert(entry@.group[0].optional == bps[i as int].optional);
            }
            let ghost prev = order@;
            let ghost prev_dv = order.deep_view();
            order.push(entry);
            proof {
                assert(order@.len() == prev.len() + 1);
                assert(prev.len() == prev_dv.len());
                assert(order.deep_view().len() == order@.len());
                assert(order@[i as int] == entry);
                assert(order.deep_view()[i as int] == entry@);
                assert forall|j: int| 0 <= j < i implies order.deep_view()[j] == prev_dv[j] by {
                    assert(order@[j] == prev[j]);
                    assert(prev[j].deep_view() == prev_dv[j]);
                }
                assert forall|j: int|
                    0 <= j < i + 1 implies {
                        &&& #[trigger] order.deep_view()[j].group.len() == 1
                        &&& order.deep_view()[j].group[0].id == Some(resolved_id_of(bps[j].uri))
                        &&& order.deep_view()[j].group[0].optional == bps[j].optional
                    } by {
                    if j < i {
                        assert(order.deep_view()[j] == prev_dv[j]);
                        assert(prev_dv[j].group.len() == 1);
                        assert(prev_dv[j].group[0].id == Some(resolved_id_of(bps[j].uri)));
                        assert(prev_dv[j].group[0].optional == bps[j].optional);
                    } else {
                        assert(order.deep_view()[j] == entry@);
                    }
                }
            }
            i = i + 1;
        }
        let mut buildpacks: Vec<Buildpack> = Vec::new();
        let mut k: usize = 0;
        proof {
            assert(buildpacks.deep_view() =~= bps.take(0));
        }
        while k < self.buildpacks.len()
            invariant
                k <= self.buildpacks.len(),
                bps == self.buildpacks.deep_view(),
                bps.len() == self.buildpacks.len(),
                buildpacks.deep_view() == bps.take(k as int),
            decreases self.buildpacks.len() - k,
        {
            let copied = self.buildpacks[k].clone();
            let ghost cv = copied@;
            let ghost prev = buildpacks@;
            let ghost prev_dv = buildpacks.deep_view();
            proof {
                assert(cv == bps[k as int]);
            }
            buildpacks.push(copied);
            proof {
                assert(buildpacks@.len() == prev.len() + 1);
                assert(prev.len() == prev_dv.len());
                assert(prev_dv.len() == bps.take(k as int).len());
                assert(bps.take(k as int).len() == k);
                assert(buildpacks.deep_view().len() == buildpacks@.len());
                assert forall|j: int| 0 <= j < k + 1 implies buildpacks.deep_view()[j] == bps.take(
                    k + 1,
                )[j] by {
                    assert(buildpacks.deep_view()[j] == buildpacks@[j].deep_view());
                    assert(bps.take(k + 1)[j] == bps[j]);
                    if j < k {
                        assert(buildpacks@[j] == prev[j]);
                        assert(prev[j].deep_view() == prev_dv[j]);
                        assert(prev_dv[j] == bps.take(k as int)[j]);
                        assert(bps.take(k as int)[j] == bps[j]);
                    } else {
                        assert(buildpacks@[j] == copied);
                        assert(copied.deep_view() == cv);
                    }
                }
                assert(buildpacks.deep_view() =~= bps.take(k + 1));
            }
            k = k + 1;
        }
        proof {
            assert(buildpacks.deep_view() =~= bps);
        }
        let ghost odv = order.deep_view();
        let builder = Builder {
            description: Some(String::from_str("Created by Droid")),
            stack: self.stack.clone(),
            buildpacks,
            order,
        };
        let r: Result<Builder, String> = Ok(builder);
        proof {
            assert(r->Ok_0@.order == odv);
            assert(r->Ok_0@.buildpacks == bps);
            assert forall|j: int|
                0 <= j < bps.len() implies {
                    &&& #[trigger] odv[j].group.len() == 1
                    &&& odv[j].group[0].id == Some(resolved_id_of(bps[j].uri))
                    &&& odv[j].group[0].optional == bps[j].optional
                } by {
                assert(odv[j].group.len() == 1);
                assert(odv[j].group[0].id == Some(resolved_id_of(bps[j].uri)));
                assert(odv[j].group[0].optional == bps[j].optional);
            }
            assert(order_matches(odv, bps));
        }
        r
    }
}

} // verus!
