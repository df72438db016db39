use rand::seq::SliceRandom;
use vstd::prelude::*;

verus! {

broadcast use vstd::seq_lib::group_seq_properties;

/// Number of body joints of a complete pose.
pub const POSE_JOINTS: usize = 16;

/// Inserts `x` into `s` behind every element at the end of `s` whose id is not
/// greater than `x`'s: on a sequence sorted by id this keeps it sorted and puts
/// `x` after the elements that share its id.
pub open spec fn spec_insert_by_id<J>(s: Seq<(usize, J)>, x: (usize, J)) -> Seq<(usize, J)>
    decreases s.len(),
{
    if s.len() == 0 {
        seq![x]
    } else if s.last().0 <= x.0 {
        s.push(x)
    } else {
        spec_insert_by_id(s.drop_last(), x).push(s.last())
    }
}

/// Stable sort by id: the joints ordered by id, joints of equal id kept in
/// the order in which they came.
pub open spec fn spec_sort_by_id<J>(s: Seq<(usize, J)>) -> Seq<(usize, J)>
    decreases s.len(),
{
    if s.len() == 0 {
        s
    } else {
        spec_insert_by_id(spec_sort_by_id(s.drop_last()), s.last())
    }
}

/// Ids never decrease along `s`.
pub open spec fn sorted_by_id<J>(s: Seq<(usize, J)>) -> bool {
    forall|i: int, j: int| 0 <= i < j < s.len() ==> s[i].0 <= s[j].0
}

proof fn lemma_insert_at_position<J>(s: Seq<(usize, J)>, x: (usize, J), p: int)
    requires
        0 <= p <= s.len(),
        p == 0 || s[p - 1].0 <= x.0,
        forall|k: int| p <= k < s.len() ==> s[k].0 > x.0,
    ensures
        spec_insert_by_id(s, x) == s.insert(p, x),
    decreases s.len(),
{
    if s.len() == 0 {
        assert(s.insert(p, x) =~= seq![x]);
    } else if p == s.len() {
        assert(s.insert(p, x) =~= s.push(x));
    } else {
        lemma_insert_at_position(s.drop_last(), x, p);
        assert(s.insert(p, x) =~= s.drop_last().insert(p, x).push(s.last()));
    }
}

/// Inserting into a sorted sequence keeps it sorted, adds `x` to its
/// elements, and yields no id above both `x`'s and the last one of `s` (the
/// bound that carries the induction).
proof fn lemma_insert_keeps_sorted<J>(s: Seq<(usize, J)>, x: (usize, J))
    requires
        sorted_by_id(s),
    ensures
        sorted_by_id(spec_insert_by_id(s, x)),
        spec_insert_by_id(s, x).to_multiset() == s.to_multiset().insert(x),
        spec_insert_by_id(s, x).len() == s.len() + 1,
        forall|k: int|
            0 <= k < spec_insert_by_id(s, x).len() ==> (#[trigger] spec_insert_by_id(s, x)[k]).0
                <= x.0 || s.len() > 0 && spec_insert_by_id(s, x)[k].0 <= s.last().0,
    decreases s.len(),
{
    broadcast use vstd::seq_lib::group_to_multiset_ensures;

    if s.len() == 0 {
        assert(seq![x] =~= Seq::<(usize, J)>::empty().push(x));
    } else if s.last().0 <= x.0 {
    } else {
        let t = s.drop_last();
        lemma_insert_keeps_sorted(t, x);
        let u = spec_insert_by_id(t, x);
        assert forall|i: int, j: int| 0 <= i < j < u.push(s.last()).len() implies u.push(
            s.last(),
        )[i].0 <= u.push(s.last())[j].0 by {
            if j == u.len() {
                if t.len() > 0 && u[i].0 <= t.last().0 {
                    assert(t.last() == s[s.len() - 2]);
                }
            }
        }
        assert(s =~= t.push(s.last()));
        assert(u.push(s.last()).to_multiset() =~= u.to_multiset().insert(s.last()));
        assert(s.to_multiset() =~= t.to_multiset().insert(s.last()));
    }
}

/// The stable sort orders by id and is a permutation of its input.
pub proof fn lemma_sort_by_id_sorted_permutation<J>(s: Seq<(usize, J)>)
    ensures
        sorted_by_id(spec_sort_by_id(s)),
        spec_sort_by_id(s).to_multiset() == s.to_multiset(),
        spec_sort_by_id(s).len() == s.len(),
    decreases s.len(),
{
    broadcast use vstd::seq_lib::group_to_multiset_ensures;

    if s.len() > 0 {
        lemma_sort_by_id_sorted_permutation(s.drop_last());
        lemma_insert_keeps_sorted(spec_sort_by_id(s.drop_last()), s.last());
        assert(s =~= s.drop_last().push(s.last()));
    }
}

/// The joints that carry id `id`, in order.
pub open spec fn with_id<J>(s: Seq<(usize, J)>, id: usize) -> Seq<(usize, J)> {
    s.filter(|p: (usize, J)| p.0 == id)
}

proof fn lemma_insert_with_id<J>(t: Seq<(usize, J)>, x: (usize, J), id: usize)
    ensures
        with_id(spec_insert_by_id(t, x), id) == with_id(t.push(x), id),
    decreases t.len(),
{
    broadcast use Seq::lemma_filter_push;

    if t.len() == 0 {
        assert(seq![x] =~= t.push(x));
    } else if t.last().0 <= x.0 {
    } else {
        let d = t.drop_last();
        lemma_insert_with_id(d, x, id);
        assert(t =~= d.push(t.last()));
        let f = |p: (usize, J)| p.0 == id;
        assert(spec_insert_by_id(d, x).push(t.last()).filter(f) == if f(t.last()) {
            spec_insert_by_id(d, x).filter(f).push(t.last())
        } else {
            spec_insert_by_id(d, x).filter(f)
        });
        assert(d.push(x).filter(f) == if f(x) { d.filter(f).push(x) } else { d.filter(f) });
        assert(t.push(x).filter(f) == if f(x) { t.filter(f).push(x) } else { t.filter(f) });
        assert(t.filter(f) == if f(t.last()) { d.filter(f).push(t.last()) } else { d.filter(f) });
    }
}

/// The sort is stable: for every id, the joints with that id come out in the
/// order in which they went in.
pub proof fn lemma_sort_by_id_stable<J>(s: Seq<(usize, J)>, id: usize)
    ensures
        with_id(spec_sort_by_id(s), id) == with_id(s, id),
    decreases s.len(),
{
    broadcast use Seq::lemma_filter_push;

    if s.len() > 0 {
        let d = s.drop_last();
        lemma_sort_by_id_stable(d, id);
        lemma_insert_with_id(spec_sort_by_id(d), s.last(), id);
        assert(s =~= d.push(s.last()));
        let f = |p: (usize, J)| p.0 == id;
        assert(spec_sort_by_id(d).push(s.last()).filter(f) == if f(s.last()) {
            spec_sort_by_id(d).filter(f).push(s.last())
        } else {
            spec_sort_by_id(d).filter(f)
        });
        assert(d.push(s.last()).filter(f) == if f(s.last()) {
            d.filter(f).push(s.last())
        } else {
            d.filter(f)
        });
    }
}

/// The poses kept from the annotated people, in order: a person whose joints
/// are listed and number exactly [`POSE_JOINTS`] gives one pose, its joints
/// sorted by id; other people give none.
pub open spec fn spec_selected_poses<J>(people: Seq<Option<Vec<(usize, J)>>>) -> Seq<
    Seq<(usize, J)>,
>
    decreases people.len(),
{
    if people.len() == 0 {
        Seq::empty()
    } else {
        let rest = spec_selected_poses(people.drop_last());
        match people.last() {
            Some(points) => if points@.len() == POSE_JOINTS {
                rest.push(spec_sort_by_id(points@))
            } else {
                rest
            },
            None => rest,
        }
    }
}

/// How many annotated people list joints, but not exactly [`POSE_JOINTS`] of them.
pub open spec fn spec_invalid_people<J>(people: Seq<Option<Vec<(usize, J)>>>) -> nat
    decreases people.len(),
{
    if people.len() == 0 {
        0
    } else {
        let rest = spec_invalid_people(people.drop_last());
        match people.last() {
            Some(points) => if points@.len() == POSE_JOINTS {
                rest
            } else {
                rest + 1
            },
            None => rest,
        }
    }
}

proof fn lemma_invalid_people_prefix<J>(people: Seq<Option<Vec<(usize, J)>>>, i: int)
    requires
        0 <= i <= people.len(),
    ensures
        spec_invalid_people(people.take(i)) <= spec_invalid_people(people),
    decreases people.len() - i,
{
    if i < people.len() {
        lemma_invalid_people_prefix(people, i + 1);
        assert(people.take(i + 1).drop_last() =~= people.take(i));
    } else {
        assert(people.take(i) =~= people);
    }
}

/// The views of a sequence of joint lists.
pub open spec fn views<J>(poses: Seq<Vec<(usize, J)>>) -> Seq<Seq<(usize, J)>> {
    poses.map_values(|pose: Vec<(usize, J)>| pose@)
}

/// The joint lists, as given, of the people that list exactly [`POSE_JOINTS`]
/// joints, in the order of the people.
pub open spec fn complete_joint_lists<J>(people: Seq<Option<Vec<(usize, J)>>>) -> Seq<
    Seq<(usize, J)>,
>
    decreases people.len(),
{
    if people.len() == 0 {
        Seq::empty()
    } else {
        let rest = complete_joint_lists(people.drop_last());
        match people.last() {
            Some(points) => if points@.len() == POSE_JOINTS {
                rest.push(points@)
            } else {
                rest
            },
            None => rest,
        }
    }
}

/// What a kept pose is, given the joint list it came from.
pub open spec fn is_pose_of<J>(pose: Seq<(usize, J)>, joints: Seq<(usize, J)>) -> bool {
    &&& pose.len() == POSE_JOINTS
    &&& sorted_by_id(pose)
    &&& pose.to_multiset() == joints.to_multiset()
    &&& forall|id: usize| #[trigger] with_id(pose, id) == with_id(joints, id)
}

/// There is one kept pose per person listing exactly [`POSE_JOINTS`] joints, in
/// the order of the people, and the pose kept for such a person holds that
/// person's joints ordered by id, joints of equal id in the order listed.
pub proof fn lemma_selected_poses_sorted<J>(people: Seq<Option<Vec<(usize, J)>>>)
    ensures
        spec_selected_poses(people).len() == complete_joint_lists(people).len(),
        forall|i: int|
            0 <= i < spec_selected_poses(people).len() ==> is_pose_of(
                #[trigger] spec_selected_poses(people)[i],
                complete_joint_lists(people)[i],
            ),
    decreases people.len(),
{
    if people.len() > 0 {
        let d = people.drop_last();
        lemma_selected_poses_sorted(d);
        match people.last() {
            Some(points) => if points@.len() == POSE_JOINTS {
                lemma_sort_by_id_sorted_permutation(points@);
                assert forall|id: usize| #[trigger] with_id(spec_sort_by_id(points@), id)
                    == with_id(points@, id) by {
                    lemma_sort_by_id_stable(points@, id);
                }
                let sel = spec_selected_poses(people);
                let com = complete_joint_lists(people);
                assert forall|i: int| 0 <= i < sel.len() implies is_pose_of(
                    #[trigger] sel[i],
                    com[i],
                ) by {
                    if i < sel.len() - 1 {
                        assert(sel[i] == spec_selected_poses(d)[i]);
                        assert(com[i] == complete_joint_lists(d)[i]);
                    }
                }
            } else {
            },
            None => {},
        }
    }
}

/// Keeps the complete poses of the annotated people, each sorted by joint id,
/// and counts the people whose joint list is incomplete or too long.
pub fn select_poses<J: Copy>(people: &Vec<Option<Vec<(usize, J)>>>) -> (selected: (
    Vec<Vec<(usize, J)>>,
    u32,
))
    requires
        spec_invalid_people(people@) <= u32::MAX,
    ensures
        views(selected.0@) == spec_selected_poses(people@),
        selected.1 == spec_invalid_people(people@),
        selected.0@.len() == complete_joint_lists(people@).len(),
        forall|i: int|
            0 <= i < selected.0@.len() ==> is_pose_of(
                (#[trigger] selected.0@[i])@,
                complete_joint_lists(people@)[i],
            ),
{
    proof {
        lemma_selected_poses_sorted(people@);
    }
    let mut poses: Vec<Vec<(usize, J)>> = Vec::new();
    let mut invalid: u32 = 0;
    let mut i: usize = 0;
    while i < people.len()
        invariant
            i <= people.len(),
            spec_invalid_people(people@) <= u32::MAX,
            views(poses@) == spec_selected_poses(people@.take(i as int)),
            invalid == spec_invalid_people(people@.take(i as int)),
        decreases people.len() - i,
    {
        proof {
            assert(people@.take(i + 1).drop_last() =~= people@.take(i as int));
            assert(people@.take(i + 1).last() == people@[i as int]);
            lemma_invalid_people_prefix(people@, i + 1);
        }
        match &people[i] {
            Some(points) => {
                if points.len() == POSE_JOINTS {
                    let sorted = sort_by_id(points);
                    let ghost before = poses@;
                    poses.push(sorted);
                    assert(views(poses@) =~= views(before).push(sorted@));
                } else {
                    invalid = invalid + 1;
                }
            },
            None => {},
        }
        i = i + 1;
    }
    assert(people@.take(people.len() as int) =~= people@);
    assert forall|i: int| 0 <= i < poses@.len() implies is_pose_of(
        (#[trigger] poses@[i])@,
        complete_joint_lists(people@)[i],
    ) by {
        assert(views(poses@)[i] == poses@[i]@);
    }
    (poses, invalid)
}

/// `poses` holds, in some order, joint lists whose views are exactly `expected`.
pub open spec fn is_reordering_of<J>(poses: Seq<Vec<(usize, J)>>, expected: Seq<Seq<(usize, J)>>) -> bool {
    exists|arranged: Seq<Vec<(usize, J)>>|
        #![trigger arranged.to_multiset()]
        views(arranged) == expected && poses.to_multiset() == arranged.to_multiset()
}

/// Puts the items in a random order, drawn from the thread-local generator of `rand`.
///
/// Trusted: `SliceRandom::shuffle` of `rand` permutes the slice in place (a
/// Fisher-Yates shuffle made of swaps), so the items come out as a permutation
/// of the items that went in. Which permutation is left open: it rests on chance.
/// Also left unsaid: `rand::rng()` panics when the operating system's entropy
/// source fails while the generator is first seeded, whatever the items.
#[verifier::external_body]
fn shuffle_in_place<T>(items: &mut Vec<T>)
    ensures
        final(items)@.to_multiset() == old(items)@.to_multiset(),
{
    items.shuffle(&mut rand::rng());
}

/// The complete poses of the annotated people (see [`select_poses`]) in a random
/// order, and the number of people whose joint list is incomplete or too long.
pub fn poses_from_people<J: Copy>(people: &Vec<Option<Vec<(usize, J)>>>) -> (result: (
    Vec<Vec<(usize, J)>>,
    u32,
))
    requires
        spec_invalid_people(people@) <= u32::MAX,
    ensures
        is_reordering_of(result.0@, spec_selected_poses(people@)),
        result.0@.len() == spec_selected_poses(people@).len(),
        result.1 == spec_invalid_people(people@),
        forall|i: int|
            0 <= i < result.0@.len() ==> (#[trigger] result.0@[i])@.len() == POSE_JOINTS
                && sorted_by_id(result.0@[i]@),
{
    broadcast use vstd::seq_lib::group_to_multiset_ensures;

    let (mut poses, invalid) = select_poses(people);
    let ghost arranged = poses@;
    shuffle_in_place(&mut poses);
    proof {
        assert(poses@.to_multiset().len() == arranged.to_multiset().len());
        assert(views(arranged).len() == arranged.len());
        assert forall|i: int| 0 <= i < poses@.len() implies (#[trigger] poses@[i])@.len()
            == POSE_JOINTS && sorted_by_id(poses@[i]@) by {
            assert(poses@.contains(poses@[i]));
            assert(poses@.to_multiset().count(poses@[i]) > 0);
            assert(arranged.contains(poses@[i]));
            let k = choose|k: int| 0 <= k < arranged.len() && arranged[k] == poses@[i];
            assert(is_pose_of(arranged[k]@, complete_joint_lists(people@)[k]));
        }
    }
    (poses, invalid)
}

/// Sorts the joints of a pose by id, keeping joints of equal id in input order.
pub fn sort_by_id<J: Copy>(points: &Vec<(usize, J)>) -> (sorted: Vec<(usize, J)>)
    ensures
        sorted@ == spec_sort_by_id(points@),
{
    let mut sorted: Vec<(usize, J)> = Vec::new();
    let mut i: usize = 0;
    while i < points.len()
        invariant
            i <= points.len(),
            sorted@ == spec_sort_by_id(points@.take(i as int)),
        decreases points.len() - i,
    {
        let x = points[i];
        let mut pos: usize = sorted.len();
        while pos > 0 && sorted[pos - 1].0 > x.0
            invariant
                pos <= sorted.len(),
                forall|k: int| pos <= k < sorted.len() ==> sorted@[k].0 > x.0,
            decreases pos,
        {
            pos = pos - 1;
        }
        proof {
            lemma_insert_at_position(sorted@, x, pos as int);
            assert(points@.take(i + 1).drop_last() =~= points@.take(i as int));
            assert(points@.take(i + 1).last() == x);
        }
        sorted.insert(pos, x);
        i = i + 1;
    }
    assert(points@.take(points.len() as int) =~= points@);
    sorted
}

} // verus!
