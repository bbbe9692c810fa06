//! `cct extract sessions` — structured per-turn session metadata.
//!
//! The binary reads sessions and their turns from the database; this module
//! decides what is asked for and how sessions are grouped into
//! conversations: sessions sharing a slug form one conversation, ordered by
//! start; every session without a slug is a conversation of its own; the
//! conversations are ordered by the start of their first session.
use vstd::prelude::*;

use vstd::multiset::Multiset;
use vstd::pervasive::VecAdditionalExecFns;

use crate::extract::turns::Json;
use crate::scope::Scope;
use crate::text::{chars_contain, chars_of, contains_text, escape_like, like_escape};
use crate::order::{
    lemma_opt_str_lt_order, lemma_str_lt_asymmetric, lemma_str_lt_transitive, opt_str_less,
    opt_str_lt, opt_string_view, str_less, str_lt,
};

verus! {

/// One session transcript with its metadata and turns.
pub struct Session {
    pub session_id: String,
    pub file: String,
    pub is_continuation: bool,
    pub version: Option<String>,
    pub git_branch: Option<String>,
    pub start: Option<String>,
    pub end: Option<String>,
    pub turns: Vec<Json>,
}

/// Sessions that belong together: those sharing a slug, or a single
/// session without one.
pub struct Conversation {
    pub slug: Option<String>,
    pub sessions: Vec<Session>,
}

/// The slug that groups a session: a non-empty slug, or none.
pub open spec fn norm_slug(slug: Option<String>) -> Option<Seq<char>> {
    match slug {
        Some(g) => if g@.len() > 0 {
            Some(g@)
        } else {
            None
        },
        None => None,
    }
}

/// Session `a` comes before session `b` of the same conversation: it
/// started earlier (no start first), or at the same time and came first.
pub open spec fn member_lt(starts: Seq<Option<String>>, a: usize, b: usize) -> bool {
    ||| opt_str_lt(starts[a as int], starts[b as int])
    ||| (opt_string_view(starts[a as int]) == opt_string_view(starts[b as int]) && a < b)
}

/// Between conversations whose first sessions started at the same time: slug
/// groups first, in slug order, then single sessions in input order.
pub open spec fn tie_lt(g: (Option<Seq<char>>, Seq<usize>), h: (Option<Seq<char>>, Seq<usize>)) -> bool {
    match (g.0, h.0) {
        (Some(x), Some(y)) => str_lt(x, y),
        (Some(_), None) => true,
        (None, None) => g.1[0] < h.1[0],
        (None, Some(_)) => false,
    }
}

/// Conversation `g` comes before `h`: its first session started earlier,
/// or at the same time and it is a slug group with a smaller slug, or a slug
/// group before a single session, or the single session that came first.
pub open spec fn conv_lt(
    starts: Seq<Option<String>>,
    g: (Option<Seq<char>>, Seq<usize>),
    h: (Option<Seq<char>>, Seq<usize>),
) -> bool {
    let a = starts[g.1[0] as int];
    let b = starts[h.1[0] as int];
    ||| opt_str_lt(a, b)
    ||| (opt_string_view(a) == opt_string_view(b) && tie_lt(g, h))
}

proof fn lemma_member_lt_order(starts: Seq<Option<String>>, a: usize, b: usize, c: usize)
    ensures
        member_lt(starts, a, b) ==> !member_lt(starts, b, a),
        member_lt(starts, a, b) && member_lt(starts, b, c) ==> member_lt(starts, a, c),
{
    lemma_opt_str_lt_order(starts[a as int], starts[b as int], starts[c as int]);
    lemma_opt_str_lt_order(starts[b as int], starts[a as int], starts[c as int]);
    lemma_opt_str_lt_order(starts[a as int], starts[c as int], starts[b as int]);
    lemma_opt_str_lt_order(starts[c as int], starts[a as int], starts[b as int]);
    lemma_opt_str_view_lt(starts[a as int], starts[b as int], starts[c as int]);
    lemma_opt_str_view_lt(starts[b as int], starts[c as int], starts[a as int]);
}

/// `opt_str_lt` depends on the plain values only.
proof fn lemma_opt_str_view_lt(a: Option<String>, b: Option<String>, c: Option<String>)
    ensures
        opt_string_view(a) == opt_string_view(b) ==> (opt_str_lt(a, c) == opt_str_lt(b, c) && opt_str_lt(
            c,
            a,
        ) == opt_str_lt(c, b)),
{
}

proof fn lemma_conv_lt_order(
    starts: Seq<Option<String>>,
    g: (Option<Seq<char>>, Seq<usize>),
    h: (Option<Seq<char>>, Seq<usize>),
    k: (Option<Seq<char>>, Seq<usize>),
)
    ensures
        conv_lt(starts, g, h) ==> !conv_lt(starts, h, g),
        conv_lt(starts, g, h) && conv_lt(starts, h, k) ==> conv_lt(starts, g, k),
{
    let a = starts[g.1[0] as int];
    let b = starts[h.1[0] as int];
    let c = starts[k.1[0] as int];
    lemma_opt_str_lt_order(a, b, c);
    lemma_opt_str_lt_order(b, a, c);
    lemma_opt_str_view_lt(a, b, c);
    lemma_opt_str_view_lt(b, c, a);
    lemma_opt_str_view_lt(a, c, b);
    match (g.0, h.0) {
        (Some(x), Some(y)) => {
            lemma_str_lt_asymmetric(x, y);
            match k.0 {
                Some(z) => {
                    if str_lt(x, y) && str_lt(y, z) {
                        lemma_str_lt_transitive(x, y, z);
                    }
                },
                None => {},
            }
        },
        _ => {},
    }
}

/// A planned conversation as plain values: its slug and the input positions
/// of its sessions, in order.
pub open spec fn group_view(g: (Option<String>, Vec<usize>)) -> (Option<Seq<char>>, Seq<usize>) {
    (opt_string_view(g.0), g.1@)
}

pub open spec fn plan_view(p: Seq<(Option<String>, Vec<usize>)>) -> Seq<
    (Option<Seq<char>>, Seq<usize>),
> {
    p.map_values(|g: (Option<String>, Vec<usize>)| group_view(g))
}

/// The input positions the planned conversations hold, with repetitions.
pub open spec fn members_ms(pv: Seq<(Option<Seq<char>>, Seq<usize>)>) -> Multiset<usize>
    decreases pv.len(),
{
    if pv.len() == 0 {
        Multiset::empty()
    } else {
        members_ms(pv.drop_last()).add(pv.last().1.to_multiset())
    }
}

/// A planned conversation over the first `n` sessions: non-empty; all its
/// sessions carry its slug; without a slug it is a single session; with one
/// it holds every session of that slug; its sessions are in order.
pub open spec fn group_ok(
    g: (Option<Seq<char>>, Seq<usize>),
    slugs: Seq<Option<Seq<char>>>,
    starts: Seq<Option<String>>,
    n: int,
) -> bool {
    &&& g.1.len() > 0
    &&& forall|j: int| 0 <= j < g.1.len() ==> #[trigger] g.1[j] < n && slugs[g.1[j] as int] == g.0
    &&& g.0 is None ==> g.1.len() == 1
    &&& g.0 is Some ==> forall|x: usize| x < n && #[trigger] slugs[x as int] == g.0 ==> g.1.contains(x)
    &&& forall|j1: int, j2: int|
        0 <= j1 < j2 < g.1.len() ==> !member_lt(starts, #[trigger] g.1[j2], #[trigger] g.1[j1])
}

/// Every planned conversation is sound and each of the first `n` sessions is
/// in exactly one of them.
pub open spec fn plan_ok(
    pv: Seq<(Option<Seq<char>>, Seq<usize>)>,
    slugs: Seq<Option<Seq<char>>>,
    starts: Seq<Option<String>>,
    n: int,
) -> bool {
    &&& forall|k: int| 0 <= k < pv.len() ==> group_ok(#[trigger] pv[k], slugs, starts, n)
    &&& forall|x: usize| #[trigger] members_ms(pv).count(x) == if x < n { 1nat } else { 0nat }
}

proof fn lemma_members_ms_update(
    pv: Seq<(Option<Seq<char>>, Seq<usize>)>,
    k: int,
    g: (Option<Seq<char>>, Seq<usize>),
    x: usize,
)
    requires
        0 <= k < pv.len(),
    ensures
        members_ms(pv.update(k, g)).count(x) + pv[k].1.to_multiset().count(x) == members_ms(
            pv,
        ).count(x) + g.1.to_multiset().count(x),
    decreases pv.len(),
{
    broadcast use vstd::multiset::group_multiset_axioms;

    if k == pv.len() - 1 {
        assert(pv.update(k, g).drop_last() =~= pv.drop_last());
    } else {
        assert(pv.update(k, g).drop_last() =~= pv.drop_last().update(k, g));
        lemma_members_ms_update(pv.drop_last(), k, g, x);
    }
}

proof fn lemma_members_ms_insert(
    pv: Seq<(Option<Seq<char>>, Seq<usize>)>,
    k: int,
    g: (Option<Seq<char>>, Seq<usize>),
    x: usize,
)
    requires
        0 <= k <= pv.len(),
    ensures
        members_ms(pv.insert(k, g)).count(x) == members_ms(pv).count(x) + g.1.to_multiset().count(
            x,
        ),
    decreases pv.len(),
{
    broadcast use vstd::multiset::group_multiset_axioms;

    if k == pv.len() {
        assert(pv.insert(k, g).drop_last() =~= pv);
    } else {
        assert(pv.insert(k, g).drop_last() =~= pv.drop_last().insert(k, g));
        lemma_members_ms_insert(pv.drop_last(), k, g, x);
    }
}

proof fn lemma_members_ms_contains(pv: Seq<(Option<Seq<char>>, Seq<usize>)>, x: usize)
    requires
        members_ms(pv).count(x) > 0,
    ensures
        exists|k: int| 0 <= k < pv.len() && #[trigger] pv[k].1.contains(x),
    decreases pv.len(),
{
    broadcast use vstd::multiset::group_multiset_axioms;
    broadcast use vstd::seq_lib::group_to_multiset_ensures;

    if pv.last().1.to_multiset().count(x) > 0 {
        assert(pv[pv.len() - 1].1.contains(x));
    } else {
        lemma_members_ms_contains(pv.drop_last(), x);
        let k = choose|k: int| 0 <= k < pv.drop_last().len() && #[trigger] pv.drop_last()[k].1.contains(x);
        assert(pv[k] == pv.drop_last()[k]);
    }
}

proof fn lemma_insert_member(
    g: (Option<Seq<char>>, Seq<usize>),
    sv: Seq<Option<Seq<char>>>,
    st: Seq<Option<String>>,
    i: usize,
    p: int,
)
    requires
        i < sv.len(),
        0 <= p <= g.1.len(),
        group_ok(g, sv, st, i as int),
        g.0 == sv[i as int],
        g.0 is Some,
        forall|q: int| 0 <= q < p ==> !opt_str_lt(st[i as int], st[#[trigger] g.1[q] as int]),
        p < g.1.len() ==> opt_str_lt(st[i as int], st[g.1[p] as int]),
    ensures
        group_ok((g.0, g.1.insert(p, i)), sv, st, i + 1),
{
    let m = g.1;
    let iu = i;
    let m2 = m.insert(p, iu);
    assert forall|j1: int, j2: int| 0 <= j1 < j2 < m2.len() implies !member_lt(
        st,
        #[trigger] m2[j2],
        #[trigger] m2[j1],
    ) by {
        if j2 < p {
            assert(m2[j1] == m[j1] && m2[j2] == m[j2]);
        } else if j2 == p {
            assert(m2[j1] == m[j1]);
            assert(m[j1] < i);
        } else if j1 < p {
            assert(m2[j1] == m[j1] && m2[j2] == m[j2 - 1]);
        } else if j1 == p {
            assert(m2[j2] == m[j2 - 1]);
            lemma_member_lt_order(st, m[j2 - 1], iu, m[p]);
            lemma_member_lt_order(st, iu, m[p], m[j2 - 1]);
            assert(m[p] < i);
            assert(member_lt(st, iu, m[p]));
            if j2 - 1 > p {
                assert(!member_lt(st, m[j2 - 1], m[p]));
            }
        } else {
            assert(m2[j1] == m[j1 - 1] && m2[j2] == m[j2 - 1]);
        }
    }
    assert forall|j: int| 0 <= j < m2.len() implies #[trigger] m2[j] < i + 1 && sv[m2[j] as int]
        == g.0 by {
        if j < p {
            assert(m2[j] == m[j]);
        } else if j > p {
            assert(m2[j] == m[j - 1]);
        }
    }
    assert forall|x: usize| x < i + 1 && #[trigger] sv[x as int] == g.0 implies m2.contains(x) by {
        if x == iu {
            assert(m2[p] == x);
        } else {
            assert(m.contains(x));
            let j = choose|j: int| 0 <= j < m.len() && m[j] == x;
            if j < p {
                assert(m2[j] == x);
            } else {
                assert(m2[j + 1] == x);
            }
        }
    }
}

proof fn lemma_group_ok_extend(
    g: (Option<Seq<char>>, Seq<usize>),
    sv: Seq<Option<Seq<char>>>,
    st: Seq<Option<String>>,
    i: int,
)
    requires
        0 <= i < sv.len(),
        group_ok(g, sv, st, i),
        g.0 is Some ==> sv[i] != g.0,
    ensures
        group_ok(g, sv, st, i + 1),
{
}

proof fn lemma_plan_step(
    pv: Seq<(Option<Seq<char>>, Seq<usize>)>,
    k: int,
    g: (Option<Seq<char>>, Seq<usize>),
    sv: Seq<Option<Seq<char>>>,
    st: Seq<Option<String>>,
    i: usize,
)
    requires
        i < sv.len(),
        0 <= k < pv.len(),
        plan_ok(pv, sv, st, i as int),
        forall|k1: int, k2: int|
            0 <= k1 < k2 < pv.len() && (#[trigger] pv[k1]).0 is Some ==> pv[k1].0 != (
            #[trigger] pv[k2]).0,
        pv[k].0 == sv[i as int],
        pv[k].0 is Some,
        g.0 == pv[k].0,
        g.1.to_multiset() == pv[k].1.to_multiset().insert(i),
        group_ok(g, sv, st, i + 1),
    ensures
        plan_ok(pv.update(k, g), sv, st, i + 1),
        forall|k1: int, k2: int|
            0 <= k1 < k2 < pv.len() && (#[trigger] pv.update(k, g)[k1]).0 is Some ==> pv.update(
                k,
                g,
            )[k1].0 != (#[trigger] pv.update(k, g)[k2]).0,
{
    broadcast use vstd::seq_lib::group_to_multiset_ensures;
    broadcast use vstd::multiset::group_multiset_axioms;

    let pv2 = pv.update(k, g);
    assert forall|q: int| 0 <= q < pv2.len() implies group_ok(#[trigger] pv2[q], sv, st, i + 1) by {
        if q != k {
            assert(pv2[q] == pv[q]);
            assert(group_ok(pv[q], sv, st, i as int));
            if pv[q].0 is Some {
                if q < k {
                    assert(pv[q].0 != pv[k].0);
                } else {
                    assert(pv[k].0 != pv[q].0);
                }
            }
            lemma_group_ok_extend(pv[q], sv, st, i as int);
        }
    }
    assert forall|x: usize| #[trigger] members_ms(pv2).count(x) == if x < i + 1 {
        1nat
    } else {
        0nat
    } by {
        lemma_members_ms_update(pv, k, g, x);
        assert(members_ms(pv).count(x) == if x < i {
            1nat
        } else {
            0nat
        });
    }
}

proof fn lemma_plan_new_group(
    pv: Seq<(Option<Seq<char>>, Seq<usize>)>,
    g: (Option<Seq<char>>, Seq<usize>),
    sv: Seq<Option<Seq<char>>>,
    st: Seq<Option<String>>,
    i: usize,
)
    requires
        i < sv.len(),
        plan_ok(pv, sv, st, i as int),
        forall|k1: int, k2: int|
            0 <= k1 < k2 < pv.len() && (#[trigger] pv[k1]).0 is Some ==> pv[k1].0 != (
            #[trigger] pv[k2]).0,
        g == (sv[i as int], seq![i]),
        sv[i as int] is Some ==> forall|q: int| 0 <= q < pv.len() ==> (#[trigger] pv[q]).0 != sv[i as int],
    ensures
        plan_ok(pv.push(g), sv, st, i + 1),
        forall|k1: int, k2: int|
            0 <= k1 < k2 < pv.push(g).len() && (#[trigger] pv.push(g)[k1]).0 is Some ==> pv.push(
                g,
            )[k1].0 != (#[trigger] pv.push(g)[k2]).0,
{
    broadcast use vstd::seq_lib::group_to_multiset_ensures;
    broadcast use vstd::multiset::group_multiset_axioms;

    let pv2 = pv.push(g);
    assert forall|q: int| 0 <= q < pv2.len() implies group_ok(#[trigger] pv2[q], sv, st, i + 1) by {
        if q < pv.len() {
            assert(pv2[q] == pv[q]);
            lemma_group_ok_extend(pv[q], sv, st, i as int);
        } else {
            assert(pv2[q] == g);
            if sv[i as int] is Some {
                assert forall|x: usize| x < i + 1 && #[trigger] sv[x as int] == g.0 implies g.1.contains(x) by {
                    if x < i {
                        assert(members_ms(pv).count(x) == 1);
                        lemma_members_ms_contains(pv, x);
                        let k = choose|k: int| 0 <= k < pv.len() && #[trigger] pv[k].1.contains(x);
                        let j = choose|j: int| 0 <= j < pv[k].1.len() && pv[k].1[j] == x;
                        assert(group_ok(pv[k], sv, st, i as int));
                        assert(sv[pv[k].1[j] as int] == pv[k].0);
                    } else {
                        assert(g.1[0] == x);
                    }
                }
            }
        }
    }
    assert forall|x: usize| #[trigger] members_ms(pv2).count(x) == if x < i + 1 {
        1nat
    } else {
        0nat
    } by {
        assert(pv2.drop_last() =~= pv);
        assert(members_ms(pv).count(x) == if x < i {
            1nat
        } else {
            0nat
        });
        assert(g.1 =~= seq![].push(i));
    }
}

/// The two optional slugs are equal as plain values.
fn same_slug(a: &Option<String>, b: &Option<String>) -> (r: bool)
    ensures
        r == (opt_string_view(*a) == opt_string_view(*b)),
{
    match (a, b) {
        (Some(x), Some(y)) => *x == *y,
        (None, None) => true,
        _ => false,
    }
}

/// The plan of conversations before ordering them: one group per slug, in
/// the order slugs first occur, and one per session without a slug.
fn plan_by_slug(slugs: &Vec<Option<String>>, starts: &Vec<Option<String>>) -> (plan: Vec<
    (Option<String>, Vec<usize>),
>)
    requires
        slugs@.len() == starts@.len(),
        forall|i: int| 0 <= i < slugs@.len() ==> #[trigger] opt_string_view(slugs@[i]) != Some(Seq::<char>::empty()),
    ensures
        plan_ok(
            plan_view(plan@),
            slugs@.map_values(|o: Option<String>| opt_string_view(o)),
            starts@,
            slugs@.len() as int,
        ),
{
    let ghost sv = slugs@.map_values(|o: Option<String>| opt_string_view(o));
    let ghost st = starts@;
    let mut plan: Vec<(Option<String>, Vec<usize>)> = Vec::new();
    let mut i: usize = 0;
    proof {
        assert forall|x: usize| #[trigger] members_ms(plan_view(plan@)).count(x) == if x < 0 {
            1nat
        } else {
            0nat
        } by {
            broadcast use vstd::multiset::group_multiset_axioms;

            assert(plan_view(plan@).len() == 0);
        }
    }
    while i < slugs.len()
        invariant
            i <= slugs@.len(),
            slugs@.len() == starts@.len(),
            sv == slugs@.map_values(|o: Option<String>| opt_string_view(o)),
            st == starts@,
            plan_ok(plan_view(plan@), sv, st, i as int),
            forall|k1: int, k2: int|
                0 <= k1 < k2 < plan@.len() && (#[trigger] plan_view(plan@)[k1]).0 is Some
                    ==> plan_view(plan@)[k1].0 != (#[trigger] plan_view(plan@)[k2]).0,
        decreases slugs@.len() - i,
    {
        let ghost pv = plan_view(plan@);
        proof {
            assert(sv[i as int] == opt_string_view(slugs@[i as int]));
        }
        if slugs[i].is_some() {
            let mut k: usize = 0;
            while k < plan.len() && !same_slug(&plan[k].0, &slugs[i])
                invariant
                    k <= plan@.len(),
                    pv == plan_view(plan@),
                    i < slugs@.len(),
                    sv == slugs@.map_values(|o: Option<String>| opt_string_view(o)),
                    forall|q: int| 0 <= q < k ==> (#[trigger] pv[q]).0 != sv[i as int],
                decreases plan@.len() - k,
            {
                k = k + 1;
            }
            if k < plan.len() {
                proof {
                    assert(pv[k as int].0 == sv[i as int]);
                }
                let mut grp: (Option<String>, Vec<usize>) = (None, Vec::new());
                plan.set_and_swap(k, &mut grp);
                let ghost old_members = grp.1@;
                let mut p: usize = 0;
                while p < grp.1.len() && !opt_str_less(&starts[i], &starts[grp.1[p]])
                    invariant
                        p <= grp.1@.len(),
                        grp.1@ == old_members,
                        old_members == pv[k as int].1,
                        group_ok(pv[k as int], sv, st, i as int),
                        slugs@.len() == starts@.len(),
                        st == starts@,
                        i < slugs@.len(),
                        forall|q: int|
                            0 <= q < p ==> !opt_str_lt(
                                st[i as int],
                                st[#[trigger] old_members[q] as int],
                            ),
                    decreases grp.1@.len() - p,
                {
                    p = p + 1;
                }
                grp.1.insert(p, i);
                let ghost new_group = group_view(grp);
                proof {
                    assert(new_group.1 =~= old_members.insert(p as int, i));
                    lemma_insert_member(pv[k as int], sv, st, i, p as int);
                    vstd::seq_lib::to_multiset_insert(old_members, p as int, i);
                }
                plan.set_and_swap(k, &mut grp);
                proof {
                    assert(plan_view(plan@) =~= pv.update(k as int, new_group));
                    lemma_plan_step(pv, k as int, new_group, sv, st, i);
                }
            } else {
                let mut members: Vec<usize> = Vec::new();
                members.push(i);
                let slug = slugs[i].clone();
                plan.push((slug, members));
                proof {
                    let g = (sv[i as int], seq![i]);
                    assert(plan_view(plan@) =~= pv.push(g));
                    lemma_plan_new_group(pv, g, sv, st, i);
                }
            }
        } else {
            let mut members: Vec<usize> = Vec::new();
            members.push(i);
            plan.push((None, members));
            proof {
                let g = (sv[i as int], seq![i]);
                assert(plan_view(plan@) =~= pv.push(g));
                lemma_plan_new_group(pv, g, sv, st, i);
            }
        }
        i = i + 1;
    }
    plan
}

/// Conversation `g` comes before `h` in the output.
fn conv_less(
    g: &(Option<String>, Vec<usize>),
    h: &(Option<String>, Vec<usize>),
    starts: &Vec<Option<String>>,
) -> (r: bool)
    requires
        g.1@.len() > 0,
        h.1@.len() > 0,
        g.1@[0] < starts@.len(),
        h.1@[0] < starts@.len(),
    ensures
        r == conv_lt(starts@, group_view(*g), group_view(*h)),
{
    let a = &starts[g.1[0]];
    let b = &starts[h.1[0]];
    if opt_str_less(a, b) {
        true
    } else if !same_slug(a, b) {
        false
    } else {
        match (&g.0, &h.0) {
            (Some(x), Some(y)) => str_less(x.as_str(), y.as_str()),
            (Some(_), None) => true,
            (None, None) => g.1[0] < h.1[0],
            (None, Some(_)) => false,
        }
    }
}

/// Conversations in order.
pub open spec fn convs_ordered(
    pv: Seq<(Option<Seq<char>>, Seq<usize>)>,
    starts: Seq<Option<String>>,
) -> bool {
    forall|k1: int, k2: int|
        0 <= k1 < k2 < pv.len() ==> !conv_lt(starts, #[trigger] pv[k2], #[trigger] pv[k1])
}

proof fn lemma_insert_conv(
    out: Seq<(Option<Seq<char>>, Seq<usize>)>,
    g: (Option<Seq<char>>, Seq<usize>),
    st: Seq<Option<String>>,
    p: int,
)
    requires
        0 <= p <= out.len(),
        convs_ordered(out, st),
        forall|q: int| 0 <= q < p ==> !conv_lt(st, g, #[trigger] out[q]),
        p < out.len() ==> conv_lt(st, g, out[p]),
    ensures
        convs_ordered(out.insert(p, g), st),
{
    let o2 = out.insert(p, g);
    assert forall|k1: int, k2: int| 0 <= k1 < k2 < o2.len() implies !conv_lt(
        st,
        #[trigger] o2[k2],
        #[trigger] o2[k1],
    ) by {
        if k2 < p {
            assert(o2[k1] == out[k1] && o2[k2] == out[k2]);
        } else if k2 == p {
            assert(o2[k1] == out[k1]);
        } else if k1 < p {
            assert(o2[k1] == out[k1] && o2[k2] == out[k2 - 1]);
        } else if k1 == p {
            assert(o2[k2] == out[k2 - 1]);
            lemma_conv_lt_order(st, out[k2 - 1], g, out[p]);
            lemma_conv_lt_order(st, g, out[p], out[k2 - 1]);
            if k2 - 1 > p {
                assert(!conv_lt(st, out[k2 - 1], out[p]));
            }
        } else {
            assert(o2[k1] == out[k1 - 1] && o2[k2] == out[k2 - 1]);
        }
    }
}

/// The planned conversations, ordered.
fn order_plan(
    plan: Vec<(Option<String>, Vec<usize>)>,
    slugs: &Vec<Option<String>>,
    starts: &Vec<Option<String>>,
) -> (out: Vec<(Option<String>, Vec<usize>)>)
    requires
        slugs@.len() == starts@.len(),
        plan_ok(
            plan_view(plan@),
            slugs@.map_values(|o: Option<String>| opt_string_view(o)),
            starts@,
            slugs@.len() as int,
        ),
    ensures
        plan_ok(
            plan_view(out@),
            slugs@.map_values(|o: Option<String>| opt_string_view(o)),
            starts@,
            slugs@.len() as int,
        ),
        convs_ordered(plan_view(out@), starts@),
{
    let ghost sv = slugs@.map_values(|o: Option<String>| opt_string_view(o));
    let ghost st = starts@;
    let ghost n = slugs@.len() as int;
    let mut rest = plan;
    let mut out: Vec<(Option<String>, Vec<usize>)> = Vec::new();
    proof {
        broadcast use vstd::multiset::group_multiset_axioms;

        assert(plan_view(out@).len() == 0);
        assert(members_ms(plan_view(out@)) =~= Multiset::empty());
    }
    while rest.len() > 0
        invariant
            sv == slugs@.map_values(|o: Option<String>| opt_string_view(o)),
            st == starts@,
            n == slugs@.len(),
            n == starts@.len(),
            forall|k: int| 0 <= k < out@.len() ==> group_ok(#[trigger] plan_view(out@)[k], sv, st, n),
            forall|k: int| 0 <= k < rest@.len() ==> group_ok(#[trigger] plan_view(rest@)[k], sv, st, n),
            forall|x: usize| #[trigger] members_ms(plan_view(out@)).count(x) + members_ms(plan_view(rest@)).count(x)
                == if x < n { 1nat } else { 0nat },
            convs_ordered(plan_view(out@), st),
        decreases rest@.len(),
    {
        let ghost rv = plan_view(rest@);
        let ghost ov = plan_view(out@);
        let g = rest.pop().unwrap();
        proof {
            assert(rv.drop_last() =~= plan_view(rest@));
            assert(group_view(g) == rv.last());
            assert(group_ok(rv[rv.len() - 1], sv, st, n));
        }
        proof {
            assert forall|k: int| 0 <= k < out@.len() implies (#[trigger] out@[k]).1@.len() > 0
                && out@[k].1@[0] < n by {
                assert(ov[k] == group_view(out@[k]));
                assert(group_ok(ov[k], sv, st, n));
            }
        }
        let mut p: usize = 0;
        while p < out.len() && !conv_less(&g, &out[p], starts)
            invariant
                forall|k: int| 0 <= k < out@.len() ==> (#[trigger] out@[k]).1@.len() > 0
                    && out@[k].1@[0] < n,
                p <= out@.len(),
                ov == plan_view(out@),
                st == starts@,
                n == starts@.len(),
                group_ok(group_view(g), sv, st, n),
                forall|k: int| 0 <= k < out@.len() ==> group_ok(#[trigger] ov[k], sv, st, n),
                forall|q: int| 0 <= q < p ==> !conv_lt(st, group_view(g), #[trigger] ov[q]),
            decreases out@.len() - p,
        {
            proof {
                assert(group_ok(ov[p as int], sv, st, n));
            }
            p = p + 1;
        }
        let ghost gv = group_view(g);
        out.insert(p, g);
        proof {
            assert(plan_view(out@) =~= ov.insert(p as int, gv));
            lemma_insert_conv(ov, gv, st, p as int);
            assert forall|x: usize| #[trigger] members_ms(plan_view(out@)).count(x) + members_ms(
                plan_view(rest@),
            ).count(x) == if x < n {
                1nat
            } else {
                0nat
            } by {
                broadcast use vstd::multiset::group_multiset_axioms;

                lemma_members_ms_insert(ov, p as int, gv, x);
            }
            assert forall|k: int| 0 <= k < out@.len() implies group_ok(#[trigger] plan_view(out@)[k], sv, st, n) by {
                if k < p {
                    assert(plan_view(out@)[k] == ov[k]);
                } else if k > p {
                    assert(plan_view(out@)[k] == ov[k - 1]);
                }
            }
        }
    }
    proof {
        broadcast use vstd::multiset::group_multiset_axioms;

        assert(plan_view(rest@).len() == 0);
    }
    out
}

proof fn lemma_members_ms_concat(
    a: Seq<(Option<Seq<char>>, Seq<usize>)>,
    b: Seq<(Option<Seq<char>>, Seq<usize>)>,
    x: usize,
)
    ensures
        members_ms(a + b).count(x) == members_ms(a).count(x) + members_ms(b).count(x),
    decreases b.len(),
{
    broadcast use vstd::multiset::group_multiset_axioms;

    if b.len() == 0 {
        assert(a + b =~= a);
    } else {
        assert((a + b).drop_last() =~= a + b.drop_last());
        lemma_members_ms_concat(a, b.drop_last(), x);
    }
}

proof fn lemma_members_ms_front(pv: Seq<(Option<Seq<char>>, Seq<usize>)>, k: int, x: usize)
    requires
        0 <= k < pv.len(),
    ensures
        members_ms(pv.skip(k)).count(x) == pv[k].1.to_multiset().count(x) + members_ms(
            pv.skip(k + 1),
        ).count(x),
{
    broadcast use vstd::multiset::group_multiset_axioms;

    assert(pv.skip(k) =~= seq![pv[k]] + pv.skip(k + 1));
    lemma_members_ms_concat(seq![pv[k]], pv.skip(k + 1), x);
    assert(seq![pv[k]].drop_last() =~= Seq::<(Option<Seq<char>>, Seq<usize>)>::empty());
    assert(members_ms(Seq::<(Option<Seq<char>>, Seq<usize>)>::empty()).count(x) == 0);
    assert(members_ms(seq![pv[k]]).count(x) == pv[k].1.to_multiset().count(x));
}

proof fn lemma_skip_count(m: Seq<usize>, j: int, x: usize)
    requires
        0 <= j < m.len(),
    ensures
        m.skip(j).to_multiset().count(x) == m.skip(j + 1).to_multiset().count(x) + if x == m[j] {
            1nat
        } else {
            0nat
        },
{
    broadcast use vstd::multiset::group_multiset_axioms;
    broadcast use vstd::seq_lib::group_to_multiset_ensures;

    assert(m.skip(j) =~= seq![m[j]] + m.skip(j + 1));
    vstd::seq_lib::lemma_multiset_commutative(seq![m[j]], m.skip(j + 1));
    assert(seq![m[j]] =~= Seq::<usize>::empty().push(m[j]));
}

/// The grouping keys of the input as plain values: the slug of each session
/// that groups it.
pub open spec fn slug_keys(items: Seq<(Session, Option<String>)>) -> Seq<Option<Seq<char>>> {
    items.map_values(|it: (Session, Option<String>)| norm_slug(it.1))
}

/// The start of each session of the input.
pub open spec fn start_keys(items: Seq<(Session, Option<String>)>) -> Seq<Option<String>> {
    items.map_values(|it: (Session, Option<String>)| it.0.start)
}

/// Conversation `c` holds the sessions at the positions `g` plans for it,
/// under its slug.
pub open spec fn conv_matches(
    c: Conversation,
    g: (Option<Seq<char>>, Seq<usize>),
    items: Seq<(Session, Option<String>)>,
) -> bool {
    &&& opt_string_view(c.slug) == g.0
    &&& c.sessions@.len() == g.1.len()
    &&& forall|j: int| 0 <= j < g.1.len() ==> #[trigger] c.sessions@[j] == items[g.1[j] as int].0
}

/// `out` is the grouping of `items` laid out by `plan`: the plan puts every
/// session in exactly one conversation, groups sessions by slug, orders
/// sessions within and conversations across, and `out` follows it.
pub open spec fn grouped_as(
    out: Seq<Conversation>,
    plan: Seq<(Option<Seq<char>>, Seq<usize>)>,
    items: Seq<(Session, Option<String>)>,
) -> bool {
    &&& plan_ok(plan, slug_keys(items), start_keys(items), items.len() as int)
    &&& convs_ordered(plan, start_keys(items))
    &&& out.len() == plan.len()
    &&& forall|k: int| 0 <= k < out.len() ==> conv_matches(#[trigger] out[k], plan[k], items)
}

fn clone_opt(a: &Option<String>) -> (r: Option<String>)
    ensures
        r == *a,
{
    match a {
        Some(x) => Some(x.clone()),
        None => None,
    }
}

/// Groups sessions, each given with its slug, into conversations: all
/// sessions with the same non-empty slug form one conversation, ordered by
/// start (no start first, ties in input order); every other session is a
/// conversation of its own; conversations are ordered by the start of their
/// first session, ties broken slug groups first by slug, then single
/// sessions in input order.
pub fn group_conversations(sessions: Vec<(Session, Option<String>)>) -> (out: Vec<Conversation>)
    ensures
        exists|plan: Seq<(Option<Seq<char>>, Seq<usize>)>| #[trigger]
            grouped_as(out@, plan, sessions@),
{
    let ghost items = sessions@;
    let n = sessions.len();
    let mut slugs: Vec<Option<String>> = Vec::new();
    let mut starts: Vec<Option<String>> = Vec::new();
    let mut i: usize = 0;
    while i < n
        invariant
            n == sessions@.len(),
            items == sessions@,
            i <= n,
            slugs@.len() == i,
            starts@.len() == i,
            forall|x: int| 0 <= x < i ==> #[trigger] opt_string_view(slugs@[x]) == norm_slug(items[x].1),
            forall|x: int| 0 <= x < i ==> #[trigger] starts@[x] == items[x].0.start,
        decreases n - i,
    {
        let key = match &sessions[i].1 {
            Some(g) => if g.as_str().is_empty() {
                None
            } else {
                Some(g.clone())
            },
            None => None,
        };
        slugs.push(key);
        starts.push(clone_opt(&sessions[i].0.start));
        i = i + 1;
    }
    proof {
        assert(slugs@.map_values(|o: Option<String>| opt_string_view(o)) =~= slug_keys(items));
        assert(starts@ =~= start_keys(items));
        assert forall|x: int| 0 <= x < slugs@.len() implies #[trigger] opt_string_view(slugs@[x])
            != Some(Seq::<char>::empty()) by {
            assert(opt_string_view(slugs@[x]) == norm_slug(items[x].1));
        }
    }
    let plan = plan_by_slug(&slugs, &starts);
    let plan = order_plan(plan, &slugs, &starts);
    let ghost pv = plan_view(plan@);
    let ghost sv = slug_keys(items);
    let ghost st = start_keys(items);
    let mut slots: Vec<Option<Session>> = Vec::new();
    let mut rest = sessions;
    proof {
        assert(rest@.skip(0) =~= items);
    }
    while rest.len() > 0
        invariant
            items.len() == n,
            slots@.len() + rest@.len() == n,
            rest@ =~= items.skip(slots@.len() as int),
            forall|x: int| 0 <= x < slots@.len() ==> #[trigger] slots@[x] == Some(items[x].0),
        decreases rest@.len(),
    {
        let ghost before = rest@;
        let (s, _slug) = rest.remove(0);
        proof {
            assert(rest@ =~= items.skip(slots@.len() as int + 1));
        }
        slots.push(Some(s));
    }
    let ghost mut remaining: Multiset<usize> = members_ms(pv);
    proof {
        assert(pv.skip(0) =~= pv);
    }
    let mut out: Vec<Conversation> = Vec::new();
    let mut k: usize = 0;
    while k < plan.len()
        invariant
            pv == plan_view(plan@),
            items.len() == n,
            slots@.len() == n,
            sv == slug_keys(items),
            st == start_keys(items),
            plan_ok(pv, sv, st, n as int),
            convs_ordered(pv, st),
            k <= plan@.len(),
            out@.len() == k,
            forall|q: int| 0 <= q < k ==> conv_matches(#[trigger] out@[q], pv[q], items),
            forall|x: usize| #[trigger] remaining.count(x) == members_ms(pv.skip(k as int)).count(x),
            forall|x: usize| #[trigger] remaining.count(x) <= 1,
            forall|x: int|
                0 <= x < n ==> #[trigger] slots@[x] == if remaining.count(x as usize) > 0 {
                    Some(items[x].0)
                } else {
                    None
                },
        decreases plan@.len() - k,
    {
        proof {
            assert(group_ok(pv[k as int], sv, st, n as int));
        }
        let mut list: Vec<Session> = Vec::new();
        let mut j: usize = 0;
        let ghost members = pv[k as int].1;
        proof {
            assert forall|x: usize| #[trigger] remaining.count(x) == members.skip(0).to_multiset().count(
                x,
            ) + members_ms(pv.skip(k + 1)).count(x) by {
                lemma_members_ms_front(pv, k as int, x);
                assert(members.skip(0) =~= members);
            }
        }
        while j < plan[k].1.len()
            invariant
                pv == plan_view(plan@),
                k < plan@.len(),
                members == pv[k as int].1,
                items.len() == n,
                slots@.len() == n,
                group_ok(pv[k as int], sv, st, n as int),
                j <= members.len(),
                list@.len() == j,
                forall|q: int| 0 <= q < j ==> #[trigger] list@[q] == items[members[q] as int].0,
                forall|x: usize| #[trigger] remaining.count(x) == members.skip(j as int).to_multiset().count(
                    x,
                ) + members_ms(pv.skip(k + 1)).count(x),
                forall|x: usize| #[trigger] remaining.count(x) <= 1,
                forall|x: int|
                    0 <= x < n ==> #[trigger] slots@[x] == if remaining.count(x as usize) > 0 {
                        Some(items[x].0)
                    } else {
                        None
                    },
            decreases members.len() - j,
        {
            let m = plan[k].1[j];
            proof {
                assert(m == members[j as int]);
                lemma_skip_count(members, j as int, m);
                assert(m < n);
                assert(slots@[m as int] == Some(items[m as int].0));
            }
            let mut tmp: Option<Session> = None;
            slots.set_and_swap(m, &mut tmp);
            let s = tmp.unwrap();
            list.push(s);
            proof {
                broadcast use vstd::multiset::group_multiset_axioms;

                let r2 = remaining.remove(m);
                assert forall|x: usize| #[trigger] r2.count(x) == members.skip(j + 1).to_multiset().count(
                    x,
                ) + members_ms(pv.skip(k + 1)).count(x) by {
                    lemma_skip_count(members, j as int, x);
                }
                remaining = r2;
            }
            j = j + 1;
        }
        let slug = clone_opt(&plan[k].0);
        let ghost c_before = list@;
        out.push(Conversation { slug, sessions: list });
        proof {
            broadcast use vstd::seq_lib::group_to_multiset_ensures;

            assert(members.skip(j as int) =~= Seq::<usize>::empty());
            assert(conv_matches(out@[k as int], pv[k as int], items));
            assert forall|x: usize| #[trigger] remaining.count(x) == members_ms(pv.skip(k + 1)).count(x) by {
                assert(!members.skip(j as int).contains(x));
            }
        }
        k = k + 1;
    }
    proof {
        assert(grouped_as(out@, pv, items));
    }
    out
}

/// The number of sessions the conversations hold together.
pub open spec fn session_total(convs: Seq<Conversation>) -> int
    decreases convs.len(),
{
    if convs.len() == 0 {
        0
    } else {
        session_total(convs.drop_last()) + convs.last().sessions@.len()
    }
}

proof fn lemma_len_from_counts(m: Multiset<usize>, n: int)
    requires
        0 <= n <= usize::MAX + 1,
        forall|x: usize| #[trigger] m.count(x) == if x < n { 1nat } else { 0nat },
    ensures
        m.len() == n,
    decreases n,
{
    broadcast use vstd::multiset::group_multiset_axioms;

    if n == 0 {
        assert(m =~= Multiset::empty());
    } else {
        let top = (n - 1) as usize;
        let m2 = m.remove(top);
        assert(Multiset::singleton(top).subset_of(m));
        lemma_len_from_counts(m2, n - 1);
    }
}

proof fn lemma_total_is_members(
    out: Seq<Conversation>,
    plan: Seq<(Option<Seq<char>>, Seq<usize>)>,
    items: Seq<(Session, Option<String>)>,
)
    requires
        out.len() == plan.len(),
        forall|k: int| 0 <= k < out.len() ==> conv_matches(#[trigger] out[k], plan[k], items),
    ensures
        session_total(out) == members_ms(plan).len(),
    decreases out.len(),
{
    broadcast use vstd::multiset::group_multiset_axioms;
    broadcast use vstd::seq_lib::group_to_multiset_ensures;

    if out.len() == 0 {
        assert(members_ms(plan) =~= Multiset::empty());
    } else {
        assert forall|k: int| 0 <= k < out.drop_last().len() implies conv_matches(
            #[trigger] out.drop_last()[k],
            plan.drop_last()[k],
            items,
        ) by {
            assert(conv_matches(out[k], plan[k], items));
        }
        lemma_total_is_members(out.drop_last(), plan.drop_last(), items);
        assert(conv_matches(out[out.len() - 1], plan[plan.len() - 1], items));
    }
}

/// Every session given lands in exactly one conversation, so the
/// conversations hold as many sessions as were given.
pub proof fn law_every_session_counted_once(
    out: Seq<Conversation>,
    plan: Seq<(Option<Seq<char>>, Seq<usize>)>,
    items: Seq<(Session, Option<String>)>,
)
    requires
        items.len() <= usize::MAX,
        grouped_as(out, plan, items),
    ensures
        session_total(out) == items.len(),
{
    lemma_total_is_members(out, plan, items);
    lemma_len_from_counts(members_ms(plan), items.len() as int);
}

/// Start of the query listing the top-level sessions in scope, each with
/// the time of its first entry.
pub const LIST_SESSIONS_SQL_HEAD: &'static str = "SELECT t.file_path, t.session_id, MIN(e.timestamp) AS start_ts FROM transcripts t JOIN entries e ON e.file_path = t.file_path WHERE NOT t.is_subagent";

/// The predicate restricting the listing to session ids with a given
/// prefix, which is bound escaped for `LIKE`.
pub const SESSION_PREFIX_SQL: &'static str = " AND t.session_id LIKE ? || '%' ESCAPE '\\'";

/// One row per transcript.
pub const LIST_SESSIONS_SQL_GROUP: &'static str = " GROUP BY t.file_path, t.session_id";

/// Oldest session first.
pub const LIST_SESSIONS_SQL_ORDER: &'static str = " ORDER BY start_ts";

/// The session listing query for `scope`, optionally narrowed to session ids
/// starting with `session_filter`, and the parameters to bind in order. The
/// project predicate applies to entries; the dates bound each session's
/// start, its first entry in scope.
pub fn list_sessions_query(scope: &Scope, session_filter: Option<&str>) -> (r: (String, Vec<String>))
    ensures
        r.0@ == LIST_SESSIONS_SQL_HEAD@ + scope.cwd_sql() + (match session_filter {
            Some(_) => SESSION_PREFIX_SQL@,
            None => Seq::<char>::empty(),
        }) + LIST_SESSIONS_SQL_GROUP@ + scope.start_having_sql() + LIST_SESSIONS_SQL_ORDER@,
        r.1@.map_values(|p: String| p@) == scope.cwd_params() + (match session_filter {
            Some(f) => seq![like_escape(f@)],
            None => Seq::<Seq<char>>::empty(),
        }) + scope.date_params(),
{
    let mut sql = String::from_str(LIST_SESSIONS_SQL_HEAD);
    let mut params: Vec<String> = Vec::new();
    proof {
        assert(params@.map_values(|p: String| p@) =~= Seq::<Seq<char>>::empty());
    }
    scope.append_cwd_where(&mut sql, &mut params);
    let ghost before = params@.map_values(|p: String| p@);
    match session_filter {
        Some(f) => {
            sql.append(SESSION_PREFIX_SQL);
            params.push(escape_like(f));
        },
        None => {},
    }
    proof {
        assert(params@.map_values(|p: String| p@) =~= before + (match session_filter {
            Some(f) => seq![like_escape(f@)],
            None => Seq::<Seq<char>>::empty(),
        }));
    }
    sql.append(LIST_SESSIONS_SQL_GROUP);
    scope.append_start_having(&mut sql, &mut params);
    sql.append(LIST_SESSIONS_SQL_ORDER);
    (sql, params)
}

/// The marker of a session resumed from an earlier, summarised one.
pub const CONTINUATION_MARKER: &'static str = "continued from a previous conversation";

/// A session whose first user message says it continues a previous
/// conversation.
pub open spec fn is_continuation_spec(first_user: Option<Seq<char>>) -> bool {
    match first_user {
        Some(t) => contains_text(t, CONTINUATION_MARKER@),
        None => false,
    }
}

/// Whether the first user message marks the session as a continuation.
pub fn is_continuation(first_user: Option<&str>) -> (r: bool)
    ensures
        r == is_continuation_spec(
            match first_user {
                Some(t) => Some(t@),
                None => None,
            },
        ),
{
    match first_user {
        Some(t) => {
            let text = chars_of(t);
            let marker = chars_of(CONTINUATION_MARKER);
            chars_contain(&text, &marker)
        },
        None => false,
    }
}

/// The `LIKE` pattern (with `ESCAPE '\'`) of user content that reports
/// the completion of subagent `agent_id`: the id is escaped, so it matches
/// only itself.
pub fn task_id_pattern(agent_id: &str) -> (r: String)
    ensures
        r@ == "%<task-id>"@ + like_escape(agent_id@) + "</task-id>%"@,
{
    let mut r = String::from_str("%<task-id>");
    let id = escape_like(agent_id);
    r.append(id.as_str());
    r.append("</task-id>%");
    r
}

/// The turn in which a subagent completed, from the boundary count up to
/// the completion message: kept only when it names one of the session's
/// `turn_count` turns.
pub fn completion_turn(bucket: Option<i64>, turn_count: usize) -> (r: Option<i64>)
    ensures
        r == (match bucket {
            Some(b) => if 0 <= b && b < turn_count {
                Some(b)
            } else {
                None
            },
            None => None,
        }),
{
    match bucket {
        Some(b) => {
            if b >= 0 && (b as u64) < (turn_count as u64) {
                Some(b)
            } else {
                None
            }
        },
        None => None,
    }
}

/// The number of sessions the conversations hold together.
pub fn session_count(convs: &Vec<Conversation>) -> (r: usize)
    requires
        session_total(convs@) <= usize::MAX,
    ensures
        r == session_total(convs@),
{
    let mut total: usize = 0;
    let mut k: usize = 0;
    while k < convs.len()
        invariant
            k <= convs@.len(),
            total == session_total(convs@.take(k as int)),
            session_total(convs@) <= usize::MAX,
        decreases convs@.len() - k,
    {
        proof {
            assert(convs@.take(k + 1).drop_last() =~= convs@.take(k as int));
            lemma_session_total_prefix(convs@, k + 1);
        }
        total = total + convs[k].sessions.len();
        k = k + 1;
    }
    proof {
        assert(convs@.take(k as int) =~= convs@);
    }
    total
}

proof fn lemma_session_total_prefix(convs: Seq<Conversation>, n: int)
    requires
        0 <= n <= convs.len(),
    ensures
        session_total(convs.take(n)) <= session_total(convs),
    decreases convs.len(),
{
    if n < convs.len() {
        assert(convs.drop_last().take(n) =~= convs.take(n));
        lemma_session_total_prefix(convs.drop_last(), n);
    } else {
        assert(convs.take(n) =~= convs);
    }
}

/// What the first query of a session reads: its slug, version, git branch,
/// first and last timestamps, and its first user message.
pub struct SessionHead {
    pub slug: Option<String>,
    pub version: Option<String>,
    pub git_branch: Option<String>,
    pub start: Option<String>,
    pub end: Option<String>,
    pub first_user: Option<String>,
}

/// A session from its listing row, head and turns, with its slug; none
/// when it has no turns.
pub fn assemble_session(
    session_id: String,
    file: String,
    head: SessionHead,
    turns: Vec<Json>,
) -> (r: Option<(Session, Option<String>)>)
    ensures
        turns@.len() == 0 ==> r is None,
        turns@.len() > 0 ==> (r matches Some((s, slug)) && slug == head.slug && s.session_id
            == session_id && s.file == file && s.version == head.version && s.git_branch
            == head.git_branch && s.start == head.start && s.end == head.end && s.turns@ == turns@
            && s.is_continuation == is_continuation_spec(
            match head.first_user {
                Some(t) => Some(t@),
                None => None,
            },
        )),
{
    if turns.len() == 0 {
        return None;
    }
    let cont = match &head.first_user {
        Some(t) => is_continuation(Some(t.as_str())),
        None => is_continuation(None),
    };
    let session = Session {
        session_id,
        file,
        is_continuation: cont,
        version: head.version,
        git_branch: head.git_branch,
        start: head.start,
        end: head.end,
        turns,
    };
    Some((session, head.slug))
}

} // verus!
