//! The routing table: an exact-match map from (method, path) to a handler.
//! Paths are byte-exact and case-sensitive; binding an existing key
//! overwrites its handler; the table is built before serving starts and
//! only read thereafter.

use vstd::prelude::*;
use crate::entries::{
    lemma_map_of_entries_contains, lemma_map_of_entries_get, lemma_map_of_entries_update,
    map_of_entries, unique_keys,
};
use crate::request_type::RequestType;
use crate::text::str_eq;

verus! {

/// What resolving a key against a table's map yields.
pub open spec fn spec_resolve<H>(
    m: Map<(RequestType, Seq<char>), H>,
    method: RequestType,
    path: Seq<char>,
) -> Option<H> {
    if m.contains_key((method, path)) {
        Some(m[(method, path)])
    } else {
        None
    }
}

/// Law: resolving the same (method, path) twice against the same table
/// returns the same handler — any two results of `resolve`'s contract on
/// equal inputs are equal.
pub proof fn lemma_resolve_deterministic<H>(
    m: Map<(RequestType, Seq<char>), H>,
    method: RequestType,
    path: Seq<char>,
    r1: Option<H>,
    r2: Option<H>,
)
    requires
        r1 == spec_resolve(m, method, path),
        r2 == spec_resolve(m, method, path),
    ensures
        r1 == r2,
{
}

/// Law: binding one route never disturbs another.  Distinct (method, path)
/// keys resolve independently, so each connection's handler depends only
/// on its own route.
pub proof fn lemma_bind_frame<H>(
    m: Map<(RequestType, Seq<char>), H>,
    method1: RequestType,
    path1: Seq<char>,
    method2: RequestType,
    path2: Seq<char>,
    h2: H,
)
    requires
        (method1, path1) != (method2, path2),
    ensures
        spec_resolve(m.insert((method2, path2), h2), method1, path1) == spec_resolve(
            m,
            method1,
            path1,
        ),
{
}

/// An exact-match routing table; `H` is whatever stands for a handler.
#[derive(Debug, Clone)]
pub struct RouteTable<H> {
    routes: Vec<(RequestType, String, H)>,
}

impl<H> View for RouteTable<H> {
    type V = Map<(RequestType, Seq<char>), H>;

    open spec fn view(&self) -> Map<(RequestType, Seq<char>), H> {
        map_of_entries(self.routes_view())
    }
}

impl<H> RouteTable<H> {
    /// The bound routes as (key, handler) pairs, in insertion order.
    pub closed spec fn routes_view(&self) -> Seq<((RequestType, Seq<char>), H)> {
        self.routes@.map_values(|t: (RequestType, String, H)| ((t.0, t.1@), t.2))
    }

    /// Well-formed: route keys pairwise distinct.
    pub open spec fn wf(&self) -> bool {
        unique_keys(self.routes_view())
    }

    /// An empty table.
    pub fn new() -> (r: Self)
        ensures
            r.wf(),
            r@ == Map::<(RequestType, Seq<char>), H>::empty(),
    {
        let r = RouteTable { routes: Vec::new() };
        proof {
            assert(r.routes_view() =~= Seq::<((RequestType, Seq<char>), H)>::empty());
        }
        r
    }

    /// Binds (method, path) to a handler, overwriting any earlier binding
    /// of the same key.
    pub fn bind(&mut self, request_type: RequestType, route: &str, func: H)
        requires
            old(self).wf(),
        ensures
            final(self).wf(),
            final(self)@ == old(self)@.insert((request_type, route@), func),
    {
        let ghost sv = old(self).routes_view();
        let ghost k = (request_type, route@);
        let n = self.routes.len();
        let mut i: usize = 0;
        let mut found: bool = false;
        while i < n
            invariant_except_break
                !found,
            invariant
                i <= n,
                n == self.routes@.len(),
                self == old(self),
                forall|j: int| 0 <= j < i ==> (#[trigger] self.routes_view()[j]).0 != (
                    request_type,
                    route@,
                ),
            ensures
                i <= n,
                self == old(self),
                n == self.routes@.len(),
                found ==> i < n && self.routes_view()[i as int].0 == (request_type, route@),
                !found ==> i == n && forall|j: int|
                    0 <= j < n ==> (#[trigger] self.routes_view()[j]).0 != (request_type, route@),
            decreases n - i,
        {
            let e = &self.routes[i];
            proof {
                assert(self.routes_view()[i as int] == (
                    (self.routes@[i as int].0, self.routes@[i as int].1@),
                    self.routes@[i as int].2,
                ));
            }
            if e.0 == request_type && str_eq(e.1.as_str(), route) {
                found = true;
                break ;
            }
            i = i + 1;
        }
        if found {
            self.routes.remove(i);
            self.routes.insert(i, (request_type, route.to_owned(), func));
            proof {
                let tv = self.routes_view();
                let ghost kv = ((request_type, route@), tv[i as int].1);
                assert forall|j: int| 0 <= j < tv.len() implies #[trigger] tv[j] == (if j == i {
                    kv
                } else {
                    sv[j]
                }) by {
                    assert(self.routes@[j] == (if j == i {
                        (self.routes@[i as int])
                    } else {
                        old(self).routes@[j]
                    }));
                }
                assert(tv[i as int] == kv);
                assert forall|i1: int, j1: int| 0 <= i1 < j1 < tv.len() implies (
                #[trigger] tv[i1]).0 != (#[trigger] tv[j1]).0 by {
                    assert(tv[i1].0 == sv[i1].0);
                    assert(tv[j1].0 == sv[j1].0);
                }
                assert forall|j: int| 0 <= j < tv.len() implies (#[trigger] tv[j]) == kv || (
                tv[j].0 != kv.0 && exists|j2: int| 0 <= j2 < sv.len() && #[trigger] sv[j2]
                    == tv[j]) by {
                    if j != i {
                        assert(sv[j] == tv[j]);
                        assert(sv[j].0 != sv[i as int].0);
                    }
                }
                assert forall|j2: int| 0 <= j2 < sv.len() && (#[trigger] sv[j2]).0 != kv.0 implies
                    exists|j: int| 0 <= j < tv.len() && #[trigger] tv[j] == sv[j2] by {
                    assert(tv[j2] == sv[j2]);
                }
                lemma_map_of_entries_update(sv, tv, kv.0, kv.1);
                assert(kv.1 == func);
            }
            return ;
        }
        self.routes.push((request_type, route.to_owned(), func));
        proof {
            let tv = self.routes_view();
            assert forall|j: int| 0 <= j < tv.len() implies #[trigger] tv[j] == (if j < n {
                sv[j]
            } else {
                (k, tv[n as int].1)
            }) by {
                assert(self.routes@[j] == (if j < n {
                    old(self).routes@[j]
                } else {
                    self.routes@[n as int]
                }));
            }
            assert(tv.drop_last() =~= sv);
            assert(tv.last() == (k, tv[n as int].1));
            assert(tv[n as int].1 == func);
            assert forall|i1: int, j1: int| 0 <= i1 < j1 < tv.len() implies (#[trigger] tv[i1]).0
                != (#[trigger] tv[j1]).0 by {
                if j1 < n {
                    assert(tv[i1] == sv[i1] && tv[j1] == sv[j1]);
                } else {
                    assert(tv[i1] == sv[i1] && tv[j1].0 == k);
                }
            }
        }
    }

    /// Resolves (method, path): the bound handler, or a miss.
    pub fn resolve(&self, request_type: &RequestType, path: &str) -> (r: Option<&H>)
        requires
            self.wf(),
        ensures
            r matches Some(h) ==> spec_resolve(self@, *request_type, path@) == Some(*h),
            r is None ==> spec_resolve(self@, *request_type, path@) is None,
    {
        let n = self.routes.len();
        let mut i: usize = 0;
        while i < n
            invariant
                i <= n,
                n == self.routes@.len(),
                self.wf(),
                forall|j: int| 0 <= j < i ==> (#[trigger] self.routes_view()[j]).0 != (
                    *request_type,
                    path@,
                ),
            decreases n - i,
        {
            let e = &self.routes[i];
            if e.0 == *request_type && str_eq(e.1.as_str(), path) {
                proof {
                    lemma_map_of_entries_get(self.routes_view(), i as int);
                }
                return Some(&self.routes[i].2);
            }
            proof {
                assert(self.routes_view()[i as int].0 == (
                    self.routes@[i as int].0,
                    self.routes@[i as int].1@,
                ));
            }
            i = i + 1;
        }
        proof {
            lemma_map_of_entries_contains(self.routes_view(), (*request_type, path@));
        }
        None
    }
}

} // verus!
