//! Sets of routes, walked in the order of their paths.

use vstd::prelude::*;
use crate::error::BackendError;
use crate::models::Route;
use crate::text::{
    stands_before, text_before, text_before_irreflexive, text_before_total, text_before_transitive,
    text_eq,
};

verus! {

/// The order of routes: by output path, then by input path.
pub open spec fn route_before(a: (Seq<char>, Seq<char>), b: (Seq<char>, Seq<char>)) -> bool {
    text_before(a.0, b.0) || (a.0 == b.0 && text_before(a.1, b.1))
}

pub open spec fn strictly_ordered(s: Seq<Route>) -> bool {
    forall|i: int, j: int|
        0 <= i < j < s.len() ==> route_before(#[trigger] s[i]@, #[trigger] s[j]@)
}

pub open spec fn holds_route(s: Seq<Route>, r: (Seq<char>, Seq<char>)) -> bool {
    exists|i: int| 0 <= i < s.len() && #[trigger] s[i]@ == r
}

pub open spec fn route_set(s: Seq<Route>) -> Set<(Seq<char>, Seq<char>)> {
    Set::new(|r: (Seq<char>, Seq<char>)| holds_route(s, r))
}

/// A set of routes.
#[derive(Debug)]
pub struct RouteSet {
    routes: Vec<Route>,
}

impl View for RouteSet {
    type V = Set<(Seq<char>, Seq<char>)>;

    open spec fn view(&self) -> Set<(Seq<char>, Seq<char>)> {
        route_set(self.routes())
    }
}

proof fn lemma_route_before_transitive(
    a: (Seq<char>, Seq<char>),
    b: (Seq<char>, Seq<char>),
    c: (Seq<char>, Seq<char>),
)
    requires
        route_before(a, b),
        route_before(b, c),
    ensures
        route_before(a, c),
{
    if text_before(a.0, b.0) && text_before(b.0, c.0) {
        text_before_transitive(a.0, b.0, c.0);
    } else if a.0 == b.0 && b.0 == c.0 {
        text_before_transitive(a.1, b.1, c.1);
    }
}

proof fn lemma_route_before_irreflexive(a: (Seq<char>, Seq<char>))
    ensures
        !route_before(a, a),
{
    text_before_irreflexive(a.0);
    text_before_irreflexive(a.1);
}

fn precedes(a: &Route, b: &Route) -> (r: bool)
    ensures
        r == route_before(a@, b@),
{
    if text_eq(a.output_path.as_str(), b.output_path.as_str()) {
        proof {
            text_before_irreflexive(a.output_path@);
        }
        stands_before(a.input_path.as_str(), b.input_path.as_str())
    } else {
        stands_before(a.output_path.as_str(), b.output_path.as_str())
    }
}

impl RouteSet {
    #[verifier::type_invariant]
    pub closed spec fn ordered(self) -> bool {
        strictly_ordered(self.routes@)
    }

    /// The routes in the order of a walk.
    pub closed spec fn routes(&self) -> Seq<Route> {
        self.routes@
    }

    pub fn new() -> (r: Self)
        ensures
            r@ == Set::<(Seq<char>, Seq<char>)>::empty(),
            r.routes().len() == 0,
    {
        let r = RouteSet { routes: Vec::new() };
        assert(r@ =~= Set::<(Seq<char>, Seq<char>)>::empty());
        r
    }

    pub fn len(&self) -> (n: usize)
        ensures
            n == self.routes().len(),
    {
        self.routes.len()
    }

    pub fn is_empty(&self) -> (r: bool)
        ensures
            r == (self.routes().len() == 0),
            r == (self@ == Set::<(Seq<char>, Seq<char>)>::empty()),
    {
        proof {
            if self.routes@.len() == 0 {
                assert(self@ =~= Set::<(Seq<char>, Seq<char>)>::empty());
            } else {
                assert(self@.contains(self.routes@[0]@));
            }
        }
        self.routes.len() == 0
    }

    pub fn at(&self, i: usize) -> (r: &Route)
        requires
            i < self.routes().len(),
        ensures
            *r == self.routes()[i as int],
            self@.contains(r@),
            strictly_ordered(self.routes()),
    {
        proof {
            use_type_invariant(self);
            assert(holds_route(self.routes@, self.routes@[i as int]@));
        }
        &self.routes[i]
    }

    /// The first position whose route is not before `route`.
    fn position(&self, route: &Route) -> (p: usize)
        ensures
            p <= self.routes@.len(),
            forall|i: int| 0 <= i < p ==> route_before(#[trigger] self.routes@[i]@, route@),
            p < self.routes@.len() ==> !route_before(self.routes@[p as int]@, route@),
    {
        let mut p: usize = 0;
        while p < self.routes.len() && precedes(&self.routes[p], route)
            invariant
                p <= self.routes@.len(),
                forall|i: int| 0 <= i < p ==> route_before(#[trigger] self.routes@[i]@, route@),
            decreases self.routes@.len() - p,
        {
            p = p + 1;
        }
        p
    }

    pub fn contains(&self, route: &Route) -> (r: bool)
        ensures
            r == self@.contains(route@),
    {
        proof {
            use_type_invariant(self);
        }
        let p = self.position(route);
        if p < self.routes.len() && !precedes(route, &self.routes[p]) {
            proof {
                text_before_total(route@.0, self.routes@[p as int]@.0);
                text_before_total(route@.1, self.routes@[p as int]@.1);
                assert(self.routes@[p as int]@ == route@);
            }
            true
        } else {
            proof {
                if holds_route(self.routes@, route@) {
                    let i = choose|i: int|
                        0 <= i < self.routes@.len() && #[trigger] self.routes@[i]@ == route@;
                    lemma_route_before_irreflexive(route@);
                    if i > p {
                        lemma_route_before_transitive(
                            route@,
                            self.routes@[p as int]@,
                            self.routes@[i]@,
                        );
                    }
                }
            }
            false
        }
    }

    pub fn insert(&mut self, route: Route)
        ensures
            final(self)@ == old(self)@.insert(route@),
    {
        proof {
            use_type_invariant(&*self);
        }
        if self.contains(&route) {
            assert(self@.insert(route@) =~= self@);
            return;
        }
        let p = self.position(&route);
        let ghost v = route@;
        let mut routes: Vec<Route> = Vec::new();
        std::mem::swap(&mut routes, &mut self.routes);
        let ghost before = routes@;
        routes.insert(p, route);
        proof {
            let s = routes@;
            assert(s == before.insert(p as int, route));
            if p < before.len() {
                let w = before[p as int]@;
                text_before_total(v.0, w.0);
                text_before_total(v.1, w.1);
                assert(holds_route(before, w));
                assert(route_before(v, w));
            }
            assert forall|i: int, j: int| 0 <= i < j < s.len() implies route_before(
                #[trigger] s[i]@,
                #[trigger] s[j]@,
            ) by {
                if i == p {
                    assert(s[j] == before[j - 1]);
                    if j - 1 > p {
                        lemma_route_before_transitive(v, before[p as int]@, before[j - 1]@);
                    }
                } else if j == p {
                    assert(s[i] == before[i]);
                } else {
                    let x = if i < p {
                        i
                    } else {
                        i - 1
                    };
                    let y = if j < p {
                        j
                    } else {
                        j - 1
                    };
                    assert(s[i] == before[x] && s[j] == before[y]);
                }
            }
            assert forall|r: (Seq<char>, Seq<char>)| holds_route(s, r) == (r == v || holds_route(
                before,
                r,
            )) by {
                if holds_route(s, r) {
                    let i = choose|i: int| 0 <= i < s.len() && #[trigger] s[i]@ == r;
                    if i < p {
                        assert(before[i]@ == r);
                    } else if i > p {
                        assert(before[i - 1]@ == r);
                    }
                }
                if holds_route(before, r) {
                    let i = choose|i: int| 0 <= i < before.len() && #[trigger] before[i]@ == r;
                    if i < p {
                        assert(s[i]@ == r);
                    } else {
                        assert(s[i + 1]@ == r);
                    }
                }
                assert(s[p as int]@ == v);
            }
            assert(route_set(s) =~= route_set(before).insert(v));
        }
        self.routes = routes;
    }

    /// The routes that are in this set and not in `other`.
    pub fn difference(&self, other: &RouteSet) -> (r: RouteSet)
        ensures
            r@ == self@.difference(other@),
    {
        let mut r = RouteSet::new();
        let mut i: usize = 0;
        while i < self.routes.len()
            invariant
                i <= self.routes@.len(),
                r@ == route_set(self.routes@.take(i as int)).difference(other@),
            decreases self.routes@.len() - i,
        {
            proof {
                lemma_route_set_push(self.routes@, i as int);
            }
            if !other.contains(&self.routes[i]) {
                r.insert(self.routes[i].clone());
            }
            assert(r@ =~= route_set(self.routes@.take(i + 1)).difference(other@));
            i = i + 1;
        }
        assert(self.routes@.take(self.routes@.len() as int) =~= self.routes@);
        r
    }

    /// Adds the routes of `other`.
    pub fn extend(&mut self, other: &RouteSet)
        ensures
            final(self)@ == old(self)@.union(other@),
    {
        let ghost before = self@;
        let mut i: usize = 0;
        assert(self@ =~= before.union(route_set(other.routes@.take(0))));
        while i < other.routes.len()
            invariant
                i <= other.routes@.len(),
                self@ == before.union(route_set(other.routes@.take(i as int))),
            decreases other.routes@.len() - i,
        {
            proof {
                lemma_route_set_push(other.routes@, i as int);
            }
            self.insert(other.routes[i].clone());
            assert(self@ =~= before.union(route_set(other.routes@.take(i + 1))));
            i = i + 1;
        }
        assert(other.routes@.take(other.routes@.len() as int) =~= other.routes@);
    }

    /// The routes whose outcome was a success (`ok`) or was not (`!ok`). The
    /// outcomes stand in the order of a walk; a route without one failed.
    pub fn select(&self, outcomes: &Vec<Result<(), BackendError>>, ok: bool) -> (r: RouteSet)
        ensures
            r@ == selected(self.routes(), outcomes@, ok),
    {
        let mut r = RouteSet::new();
        let mut i: usize = 0;
        assert(r@ =~= selected(self.routes@.take(0), outcomes@, ok));
        while i < self.routes.len()
            invariant
                i <= self.routes@.len(),
                r@ == selected(self.routes@.take(i as int), outcomes@, ok),
            decreases self.routes@.len() - i,
        {
            let done = i < outcomes.len() && outcomes[i].is_ok();
            let ghost before = r@;
            if done == ok {
                r.insert(self.routes[i].clone());
            }
            proof {
                let s = self.routes@.take(i as int);
                let t = self.routes@.take(i + 1);
                assert(t =~= s.push(self.routes@[i as int]));
                assert forall|x: (Seq<char>, Seq<char>)|
                    selected(t, outcomes@, ok).contains(x) == (selected(
                        s,
                        outcomes@,
                        ok,
                    ).contains(x) || (done == ok && x == self.routes@[i as int]@)) by {
                    if selected(t, outcomes@, ok).contains(x) {
                        let k = choose|k: int|
                            0 <= k < t.len() && #[trigger] t[k]@ == x && succeeded(outcomes@, k)
                                == ok;
                        if k < s.len() {
                            assert(s[k]@ == x);
                        }
                    }
                    if selected(s, outcomes@, ok).contains(x) {
                        let k = choose|k: int|
                            0 <= k < s.len() && #[trigger] s[k]@ == x && succeeded(outcomes@, k)
                                == ok;
                        assert(t[k]@ == x);
                    }
                    assert(t[i as int]@ == self.routes@[i as int]@);
                }
                assert(r@ =~= selected(t, outcomes@, ok));
            }
            i = i + 1;
        }
        assert(self.routes@.take(self.routes@.len() as int) =~= self.routes@);
        r
    }

    /// How many routes failed.
    pub fn count_failed(&self, outcomes: &Vec<Result<(), BackendError>>) -> (n: usize)
        ensures
            n == failures(self.routes().len(), outcomes@),
    {
        let mut n: usize = 0;
        let mut i: usize = 0;
        while i < self.routes.len()
            invariant
                i <= self.routes@.len(),
                n <= i,
                n == failures(i as nat, outcomes@),
            decreases self.routes@.len() - i,
        {
            if !(i < outcomes.len() && outcomes[i].is_ok()) {
                n = n + 1;
            }
            i = i + 1;
        }
        n
    }
}

pub open spec fn succeeded(outcomes: Seq<Result<(), BackendError>>, i: int) -> bool {
    i < outcomes.len() && outcomes[i] is Ok
}

/// The routes at which the outcome was a success, or was not.
pub open spec fn selected(
    s: Seq<Route>,
    outcomes: Seq<Result<(), BackendError>>,
    ok: bool,
) -> Set<(Seq<char>, Seq<char>)> {
    Set::new(
        |r: (Seq<char>, Seq<char>)|
            exists|k: int|
                0 <= k < s.len() && #[trigger] s[k]@ == r && succeeded(outcomes, k) == ok,
    )
}

/// How many of `n` outcomes are no success.
pub open spec fn failures(n: nat, outcomes: Seq<Result<(), BackendError>>) -> nat
    decreases n,
{
    if n == 0 {
        0
    } else {
        let before = failures((n - 1) as nat, outcomes);
        if succeeded(outcomes, n - 1) {
            before
        } else {
            before + 1
        }
    }
}

proof fn lemma_route_set_push(s: Seq<Route>, i: int)
    requires
        0 <= i < s.len(),
    ensures
        route_set(s.take(i + 1)) == route_set(s.take(i)).insert(s[i]@),
{
    let a = s.take(i);
    let b = s.take(i + 1);
    assert forall|r: (Seq<char>, Seq<char>)| holds_route(b, r) == (r == s[i]@ || holds_route(
        a,
        r,
    )) by {
        if holds_route(b, r) {
            let k = choose|k: int| 0 <= k < b.len() && #[trigger] b[k]@ == r;
            if k < i {
                assert(a[k]@ == r);
            }
        }
        if holds_route(a, r) {
            let k = choose|k: int| 0 <= k < a.len() && #[trigger] a[k]@ == r;
            assert(b[k]@ == r);
        }
        assert(b[i]@ == s[i]@);
    }
    assert(route_set(b) =~= route_set(a).insert(s[i]@));
}

/// No failure is counted exactly where no route failed.
pub proof fn no_failures_no_failed_routes(s: Seq<Route>, outcomes: Seq<Result<(), BackendError>>)
    ensures
        (failures(s.len(), outcomes) == 0) == (selected(s, outcomes, false) == Set::<
            (Seq<char>, Seq<char>),
        >::empty()),
    decreases s.len(),
{
    let none = Set::<(Seq<char>, Seq<char>)>::empty();
    if s.len() == 0 {
        assert(selected(s, outcomes, false) =~= none);
    } else {
        let n = s.len() - 1;
        let head = s.drop_last();
        no_failures_no_failed_routes(head, outcomes);
        if !succeeded(outcomes, n) {
            assert(s[n]@ == s[n]@);
            assert(selected(s, outcomes, false).contains(s[n]@));
        } else {
            assert forall|r: (Seq<char>, Seq<char>)|
                selected(s, outcomes, false).contains(r) == selected(
                    head,
                    outcomes,
                    false,
                ).contains(r) by {
                if selected(s, outcomes, false).contains(r) {
                    let k = choose|k: int|
                        0 <= k < s.len() && #[trigger] s[k]@ == r && succeeded(outcomes, k)
                            == false;
                    assert(head[k]@ == r);
                }
                if selected(head, outcomes, false).contains(r) {
                    let k = choose|k: int|
                        0 <= k < head.len() && #[trigger] head[k]@ == r && succeeded(outcomes, k)
                            == false;
                    assert(s[k]@ == r);
                }
            }
            assert(selected(s, outcomes, false) =~= selected(head, outcomes, false));
        }
    }
}

/// A walk meets the routes in their order, and each of them once.
pub proof fn routes_are_walked_in_order(routes: RouteSet)
    requires
        routes.ordered(),
    ensures
        strictly_ordered(routes.routes()),
        forall|i: int, j: int|
            0 <= i < routes.routes().len() && 0 <= j < routes.routes().len()
                && #[trigger] routes.routes()[i]@ == #[trigger] routes.routes()[j]@ ==> i == j,
{
    let s = routes.routes();
    assert forall|i: int, j: int|
        0 <= i < s.len() && 0 <= j < s.len() && #[trigger] s[i]@ == #[trigger] s[j]@ implies i
        == j by {
        lemma_route_before_irreflexive(s[i]@);
        if i < j {
            assert(route_before(s[i]@, s[j]@));
        } else if j < i {
            assert(route_before(s[j]@, s[i]@));
        }
    }
}

/// Routes stand in the order of their output paths and, where these are the
/// same, of their input paths.
pub proof fn routes_stand_in_the_order_of_their_paths(
    a: (Seq<char>, Seq<char>),
    b: (Seq<char>, Seq<char>),
)
    ensures
        a.0 != b.0 ==> route_before(a, b) == text_before(a.0, b.0),
        a.0 == b.0 ==> route_before(a, b) == text_before(a.1, b.1),
        a != b ==> route_before(a, b) || route_before(b, a),
{
    text_before_irreflexive(a.0);
    text_before_total(a.0, b.0);
    text_before_total(a.1, b.1);
}

/// A route of a walk counts as made, or as failed, by the outcome at its own
/// place; where there is none, it failed.
pub proof fn routes_are_judged_by_their_own_outcome(
    routes: RouteSet,
    outcomes: Seq<Result<(), BackendError>>,
    k: int,
)
    requires
        routes.ordered(),
        0 <= k < routes.routes().len(),
    ensures
        ({
            let s = routes.routes();
            let made = k < outcomes.len() && outcomes[k] is Ok;
            &&& selected(s, outcomes, true).contains(s[k]@) == made
            &&& selected(s, outcomes, false).contains(s[k]@) == !made
        }),
{
    let s = routes.routes();
    routes_are_walked_in_order(routes);
    let made = succeeded(outcomes, k);
    assert(selected(s, outcomes, made).contains(s[k]@));
    if selected(s, outcomes, !made).contains(s[k]@) {
        let j = choose|j: int|
            0 <= j < s.len() && #[trigger] s[j]@ == s[k]@ && succeeded(outcomes, j) == !made;
        assert(j == k);
    }
}

/// Whatever is selected is a route of the walk.
pub proof fn nothing_is_selected_but_routes(
    s: Seq<Route>,
    outcomes: Seq<Result<(), BackendError>>,
    ok: bool,
    r: (Seq<char>, Seq<char>),
)
    requires
        selected(s, outcomes, ok).contains(r),
    ensures
        exists|k: int| 0 <= k < s.len() && #[trigger] s[k]@ == r,
{
    let k = choose|k: int|
        0 <= k < s.len() && #[trigger] s[k]@ == r && succeeded(outcomes, k) == ok;
    assert(s[k]@ == r);
}

/// As many routes failed as there are outcomes that are errors, and as are
/// missing.
pub proof fn failures_are_counted_one_by_one(outcomes: Seq<Result<(), BackendError>>, missing: nat)
    ensures
        failures(outcomes.len() + missing, outcomes) == outcomes.filter(
            |r: Result<(), BackendError>| r is Err,
        ).len() + missing,
    decreases outcomes.len() + missing,
{
    let failed = |r: Result<(), BackendError>| r is Err;
    if missing > 0 {
        failures_are_counted_one_by_one(outcomes, (missing - 1) as nat);
    } else if outcomes.len() > 0 {
        let head = outcomes.drop_last();
        failures_are_counted_one_by_one(head, 0);
        head.lemma_filter_push(outcomes.last(), failed);
        assert(head.push(outcomes.last()) =~= outcomes);
        lemma_failures_of_head(outcomes, head.len());
    } else {
        assert(outcomes.filter(failed).len() == 0) by {
            reveal(Seq::filter);
        }
    }
}

proof fn lemma_failures_of_head(outcomes: Seq<Result<(), BackendError>>, n: nat)
    requires
        outcomes.len() > 0,
        n < outcomes.len(),
    ensures
        failures(n, outcomes) == failures(n, outcomes.drop_last()),
    decreases n,
{
    if n > 0 {
        lemma_failures_of_head(outcomes, (n - 1) as nat);
        assert(outcomes.drop_last()[n - 1] == outcomes[n - 1]);
    }
}

} // verus!
