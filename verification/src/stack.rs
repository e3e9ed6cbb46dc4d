//! Stacks, and the order-sensitive, wildcard-aware stack intersection.
//!
//! The intersection of an ordered buildpack list is a left fold over the
//! list.  The running state is either `Any` — no constraint yet, every
//! buildpack so far declared universal compatibility — or `Only(common)`,
//! the stacks every constraining buildpack so far supports, in the order
//! they were first seen.  A buildpack whose stack list contains the
//! wildcard token never narrows the running set; a constraining buildpack
//! replaces `Any` with its own list and filters `Only(common)` down to the
//! members its list also holds, failing when nothing is left.

use vstd::prelude::*;

use crate::buildpack::{Buildpack, BuildpackView};
use crate::error::{DsiError, DsiErrorView};
use crate::text::{has_wildcard, list_contains_str, list_has_wildcard, seq_has_string, wildcard};

verus! {

/// A pair of base images identified by an id: the target environment a
/// builder is created for.
pub struct Stack {
    pub id: String,
    pub build_image: String,
    pub run_image: String,
}

/// The mathematical shadow of [`Stack`].
pub struct StackView {
    pub id: Seq<char>,
    pub build_image: Seq<char>,
    pub run_image: Seq<char>,
}

impl View for Stack {
    type V = StackView;

    open spec fn view(&self) -> StackView {
        StackView { id: self.id@, build_image: self.build_image@, run_image: self.run_image@ }
    }
}

impl DeepView for Stack {
    type V = StackView;

    open spec fn deep_view(&self) -> StackView {
        self.view()
    }
}

impl Clone for Stack {
    fn clone(&self) -> (res: Self)
        ensures
            res@ == self@,
    {
        Stack {
            id: self.id.clone(),
            build_image: self.build_image.clone(),
            run_image: self.run_image.clone(),
        }
    }
}

/// The running state of the intersection fold: unconstrained so far, or
/// narrowed to a concrete stack list.
pub enum StackConstraint {
    Any,
    Only(Seq<Seq<char>>),
}

/// What the intersection of a buildpack list comes to.
pub enum DetectOutcome {
    /// The stacks every buildpack supports, in discovery order.
    Stacks(Seq<Seq<char>>),
    /// The named buildpack was never resolved: its stack list is missing.
    NotResolved(Seq<char>),
    /// The named buildpack shares no stack with the ones before it.
    NoCommonFor(Seq<char>),
    /// Nothing is left after every buildpack was processed, or the list
    /// was empty to begin with.
    NoCommonAtAll,
}

/// The members of `common` that `s` also holds, in `common`'s order.
pub open spec fn filter_in(common: Seq<Seq<char>>, s: Seq<Seq<char>>) -> Seq<Seq<char>>
    decreases common.len(),
{
    if common.len() == 0 {
        Seq::empty()
    } else {
        filter_in(common.drop_last(), s) + if seq_has_string(s, common.last()) {
            seq![common.last()]
        } else {
            Seq::empty()
        }
    }
}

/// The intersection fold, from state `c` over the buildpacks `bps`.
pub open spec fn run_intersect(c: StackConstraint, bps: Seq<BuildpackView>) -> DetectOutcome
    decreases bps.len(),
{
    if bps.len() == 0 {
        match c {
            StackConstraint::Any => DetectOutcome::Stacks(seq![wildcard()]),
            StackConstraint::Only(t) => if t.len() == 0 {
                DetectOutcome::NoCommonAtAll
            } else {
                DetectOutcome::Stacks(t)
            },
        }
    } else {
        match bps[0].compatible_stacks {
            None => DetectOutcome::NotResolved(bps[0].uri),
            Some(s) => if has_wildcard(s) {
                run_intersect(c, bps.drop_first())
            } else {
                match c {
                    StackConstraint::Any => run_intersect(
                        StackConstraint::Only(s),
                        bps.drop_first(),
                    ),
                    StackConstraint::Only(t) => {
                        let m = filter_in(t, s);
                        if m.len() == 0 {
                            DetectOutcome::NoCommonFor(bps[0].uri)
                        } else {
                            run_intersect(StackConstraint::Only(m), bps.drop_first())
                        }
                    },
                }
            },
        }
    }
}

/// The intersection of the whole list: the fold from `Any`, except that an
/// empty list has no common stack at all.
pub open spec fn detect_outcome(bps: Seq<BuildpackView>) -> DetectOutcome {
    if bps.len() == 0 {
        DetectOutcome::NoCommonAtAll
    } else {
        run_intersect(StackConstraint::Any, bps)
    }
}

/// How an executable intersection result must relate to the outcome: the
/// stacks on success, and the exact error variant on each failure.
pub open spec fn detect_matches(bps: Seq<BuildpackView>, r: Result<Vec<String>, DsiError>) -> bool {
    match detect_outcome(bps) {
        DetectOutcome::Stacks(s) => (r matches Ok(v) && v.deep_view() == s),
        DetectOutcome::NotResolved(u) => (r matches Err(e) && e@
            == (DsiErrorView::NoCompatibleStacks { uri: u })),
        DetectOutcome::NoCommonFor(u) => (r matches Err(e) && e@ == (DsiErrorView::NoCommonStack {
            uri: Some(u),
        })),
        DetectOutcome::NoCommonAtAll => (r matches Err(e) && e@ == (DsiErrorView::NoCommonStack {
            uri: None,
        })),
    }
}

/// The fold state a running intersection holds: `None` is `Any`.
pub open spec fn constraint_of(c: Option<Seq<Seq<char>>>) -> StackConstraint {
    match c {
        None => StackConstraint::Any,
        Some(t) => StackConstraint::Only(t),
    }
}

/// The members of `common` that `s` also holds, in `common`'s order.
fn filter_common(common: &Vec<String>, s: &Vec<String>) -> (r: Vec<String>)
    ensures
        r.deep_view() == filter_in(common.deep_view(), s.deep_view()),
{
    let ghost cv = common.deep_view();
    let ghost sv = s.deep_view();
    let mut out: Vec<String> = Vec::new();
    let mut j: usize = 0;
    while j < common.len()
        invariant
            j <= common.len(),
            cv == common.deep_view(),
            sv == s.deep_view(),
            cv.len() == common.len(),
            out.deep_view() == filter_in(cv.take(j as int), sv),
        decreases common.len() - j,
    {
        proof {
            assert(cv.take(j + 1).drop_last() =~= cv.take(j as int));
            assert(cv.take(j + 1).last() == cv[j as int]);
            assert(cv[j as int] == common[j as int]@);
        }
        if list_contains_str(s, common[j].as_str()) {
            let ghost before = out.deep_view();
            out.push(common[j].clone());
            proof {
                assert(out.deep_view() =~= before + seq![cv[j as int]]);
            }
        }
        j = j + 1;
    }
    proof {
        assert(cv.take(cv.len() as int) =~= cv);
    }
    out
}

impl Stack {
    /// The stacks common to an ordered, resolved buildpack list.
    ///
    /// The result is the fold described at [`run_intersect`]: a buildpack
    /// whose list holds the wildcard token imposes no constraint, the first
    /// constraining buildpack seeds the running set, and each later one
    /// narrows it, in input order.  When every buildpack declares universal
    /// compatibility the single wildcard token is returned.  Errors:
    /// `NoCompatibleStacks` names the first buildpack reached whose stacks
    /// were never resolved; `NoCommonStack` names the buildpack that
    /// emptied the running set, or no buildpack when the list itself is
    /// empty or the seed list was empty.
    pub fn detect_common_stacks(buildpack_list: &Vec<Buildpack>) -> (r: Result<
        Vec<String>,
        DsiError,
    >)
        ensures
            detect_matches(buildpack_list.deep_view(), r),
    {
        let ghost bps = buildpack_list.deep_view();
        if buildpack_list.len() == 0 {
            return Err(DsiError::NoCommonStack { uri: None });
        }
        let mut common: Option<Vec<String>> = None;
        let mut i: usize = 0;
        proof {
            assert(bps.skip(0) =~= bps);
        }
        while i < buildpack_list.len()
            invariant
                i <= buildpack_list.len(),
                bps == buildpack_list.deep_view(),
                bps.len() == buildpack_list.len(),
                bps.len() > 0,
                run_intersect(constraint_of(common.deep_view()), bps.skip(i as int))
                    == run_intersect(StackConstraint::Any, bps),
            decreases buildpack_list.len() - i,
        {
            proof {
                assert(bps.skip(i as int)[0] == bps[i as int]);
                assert(bps.skip(i as int).drop_first() =~= bps.skip(i + 1));
                assert(bps[i as int] == buildpack_list[i as int]@);
            }
            let bp = &buildpack_list[i];
            match &bp.compatible_stacks {
                None => {
                    return Err(DsiError::NoCompatibleStacks { uri: bp.uri.clone() });
                },
                Some(stacks) => {
                    if !list_has_wildcard(stacks) {
                        match common {
                            None => {
                                let seeded = stacks.clone();
                                proof {
                                    assert(seeded.deep_view() =~= stacks.deep_view());
                                }
                                common = Some(seeded);
                            },
                            Some(cur) => {
                                let matching = filter_common(&cur, stacks);
                                if matching.len() == 0 {
                                    proof {
                                        assert(matching.deep_view() =~= Seq::<
                                            Seq<char>,
                                        >::empty());
                                    }
                                    return Err(
                                        DsiError::NoCommonStack { uri: Some(bp.uri.clone()) },
                                    );
                                }
                                common = Some(matching);
                            },
                        }
                    }
                },
            }
            i = i + 1;
        }
        proof {
            assert(bps.skip(bps.len() as int) =~= Seq::<BuildpackView>::empty());
        }
        match common {
            None => {
                let mut only_wildcard: Vec<String> = Vec::new();
                only_wildcard.push(String::from_str("*"));
                proof {
                    reveal_strlit("*");
                    assert("*"@ =~= wildcard());
                    assert(only_wildcard.deep_view() =~= seq![wildcard()]);
                }
                Ok(only_wildcard)
            },
            Some(c) => {
                if c.len() == 0 {
                    Err(DsiError::NoCommonStack { uri: None })
                } else {
                    Ok(c)
                }
            },
        }
    }
}

/// The stacks common to an ordered, resolved buildpack list; the free
/// spelling of [`Stack::detect_common_stacks`].
pub fn detect_common_stacks(buildpack_list: &Vec<Buildpack>) -> (r: Result<Vec<String>, DsiError>)
    ensures
        detect_matches(buildpack_list.deep_view(), r),
{
    Stack::detect_common_stacks(buildpack_list)
}

/// Intersection is deterministic: any two results that the contract of
/// [`Stack::detect_common_stacks`] admits for the same buildpack list are
/// the same — the same stacks in the same order, or the same error.
pub proof fn lemma_detect_deterministic(
    bps: Seq<BuildpackView>,
    r1: Result<Vec<String>, DsiError>,
    r2: Result<Vec<String>, DsiError>,
)
    requires
        detect_matches(bps, r1),
        detect_matches(bps, r2),
    ensures
        (match (r1, r2) {
            (Ok(v1), Ok(v2)) => v1.deep_view() == v2.deep_view(),
            (Err(e1), Err(e2)) => e1@ == e2@,
            _ => false,
        }),
{
}

/// A buildpack whose stack list holds the wildcard token never constrains
/// the fold, from any state.
proof fn lemma_run_skips_wildcard(c: StackConstraint, bps: Seq<BuildpackView>, i: int)
    requires
        0 <= i < bps.len(),
        bps[i].compatible_stacks matches Some(s) && has_wildcard(s),
    ensures
        run_intersect(c, bps) == run_intersect(c, bps.remove(i)),
    decreases i,
{
    if i == 0 {
        assert(bps.remove(0) =~= bps.drop_first());
    } else {
        assert(bps.remove(i)[0] == bps[0]);
        assert(bps.remove(i).drop_first() =~= bps.drop_first().remove(i - 1));
        match bps[0].compatible_stacks {
            None => {},
            Some(s0) => {
                if has_wildcard(s0) {
                    lemma_run_skips_wildcard(c, bps.drop_first(), i - 1);
                } else {
                    match c {
                        StackConstraint::Any => {
                            lemma_run_skips_wildcard(
                                StackConstraint::Only(s0),
                                bps.drop_first(),
                                i - 1,
                            );
                        },
                        StackConstraint::Only(t) => {
                            let m = filter_in(t, s0);
                            if m.len() != 0 {
                                lemma_run_skips_wildcard(
                                    StackConstraint::Only(m),
                                    bps.drop_first(),
                                    i - 1,
                                );
                            }
                        },
                    }
                }
            },
        }
    }
}

/// A buildpack declaring only the wildcard, standing anywhere but first,
/// can be removed without changing the intersection.
pub proof fn lemma_wildcard_not_first_removable(bps: Seq<BuildpackView>, i: int)
    requires
        1 <= i < bps.len(),
        bps[i].compatible_stacks == Some(seq![wildcard()]),
    ensures
        detect_outcome(bps) == detect_outcome(bps.remove(i)),
{
    assert(seq![wildcard()][0] == wildcard());
    lemma_run_skips_wildcard(StackConstraint::Any, bps, i);
}

/// When the first buildpack declares only the wildcard, the intersection
/// equals the intersection of the remaining list.
pub proof fn lemma_wildcard_first_resets(bps: Seq<BuildpackView>)
    requires
        bps.len() >= 2,
        bps[0].compatible_stacks == Some(seq![wildcard()]),
    ensures
        detect_outcome(bps) == detect_outcome(bps.drop_first()),
{
    assert(seq![wildcard()][0] == wildcard());
}

} // verus!
