//! The request target: a path plus an optional query string, parsed by
//! splitting at the first `?`, then at `&`, then at the first `=` of each
//! parameter.  A parameter without `=`, or with an empty key or value, is
//! rejected.

use vstd::prelude::*;
use crate::entries::{
    entry_views, lemma_map_of_entries_contains, lemma_map_of_entries_get,
    lemma_map_of_entries_update, map_of_entries, unique_keys,
};
use crate::text::{
    find_char, spec_find_char, spec_split_char, split_char, str_eq, string_views,
};

verus! {

/// Query parameters: a name-to-value mapping; inserting an existing name
/// overwrites its value.
#[derive(Debug, Clone, PartialEq)]
pub struct QueryParams {
    entries: Vec<(String, String)>,
}

impl View for QueryParams {
    type V = Map<Seq<char>, Seq<char>>;

    open spec fn view(&self) -> Map<Seq<char>, Seq<char>> {
        map_of_entries(self.entries_view())
    }
}

impl QueryParams {
    /// The stored (name, value) pairs, in insertion order.
    pub closed spec fn entries_view(&self) -> Seq<(Seq<char>, Seq<char>)> {
        entry_views(self.entries@)
    }

    /// Well-formed: names pairwise distinct.
    pub open spec fn wf(&self) -> bool {
        unique_keys(self.entries_view())
    }

    /// An empty parameter map.
    pub fn new() -> (r: Self)
        ensures
            r.wf(),
            r@ == Map::<Seq<char>, Seq<char>>::empty(),
    {
        let r = QueryParams { entries: Vec::new() };
        proof {
            assert(r.entries_view() =~= Seq::<(Seq<char>, Seq<char>)>::empty());
        }
        r
    }

    /// Binds `key` to `value`, overwriting any earlier value of `key`.
    pub fn insert(&mut self, key: String, value: String)
        requires
            old(self).wf(),
        ensures
            final(self).wf(),
            final(self)@ == old(self)@.insert(key@, value@),
    {
        let ghost sv = old(self).entries_view();
        let ghost k = key@;
        let ghost v = value@;
        let n = self.entries.len();
        let mut i: usize = 0;
        let mut found: bool = false;
        while i < n
            invariant_except_break
                !found,
            invariant
                i <= n,
                n == self.entries@.len(),
                self == old(self),
                forall|j: int| 0 <= j < i ==> (#[trigger] self.entries_view()[j]).0 != key@,
            ensures
                i <= n,
                self == old(self),
                n == self.entries@.len(),
                found ==> i < n && self.entries_view()[i as int].0 == key@,
                !found ==> i == n && forall|j: int|
                    0 <= j < n ==> (#[trigger] self.entries_view()[j]).0 != key@,
            decreases n - i,
        {
            let e = &self.entries[i];
            if str_eq(e.0.as_str(), key.as_str()) {
                found = true;
                break ;
            }
            i = i + 1;
        }
        if found {
            self.entries.remove(i);
            self.entries.insert(i, (key, value));
            proof {
                let tv = self.entries_view();
                assert forall|j: int| 0 <= j < tv.len() implies #[trigger] tv[j] == (if j == i {
                    (k, v)
                } else {
                    sv[j]
                }) by {
                    assert(self.entries@[j] == (if j == i {
                        (self.entries@[i as int])
                    } else {
                        old(self).entries@[j]
                    }));
                }
                assert(tv[i as int] == (k, v));
                assert forall|i1: int, j1: int| 0 <= i1 < j1 < tv.len() implies (
                #[trigger] tv[i1]).0 != (#[trigger] tv[j1]).0 by {
                    assert(tv[i1].0 == sv[i1].0);
                    assert(tv[j1].0 == sv[j1].0);
                }
                assert forall|j: int| 0 <= j < tv.len() implies (#[trigger] tv[j]) == (k, v) || (
                tv[j].0 != k && exists|j2: int| 0 <= j2 < sv.len() && #[trigger] sv[j2]
                    == tv[j]) by {
                    if j != i {
                        assert(sv[j] == tv[j]);
                        assert(sv[j].0 != sv[i as int].0);
                    }
                }
                assert forall|j2: int| 0 <= j2 < sv.len() && (#[trigger] sv[j2]).0 != k implies
                    exists|j: int| 0 <= j < tv.len() && #[trigger] tv[j] == sv[j2] by {
                    assert(tv[j2] == sv[j2]);
                }
                lemma_map_of_entries_update(sv, tv, k, v);
            }
            return ;
        }
        self.entries.push((key, value));
        proof {
            let tv = self.entries_view();
            assert forall|j: int| 0 <= j < tv.len() implies #[trigger] tv[j] == (if j < n {
                sv[j]
            } else {
                (k, v)
            }) by {
                assert(self.entries@[j] == (if j < n {
                    old(self).entries@[j]
                } else {
                    self.entries@[n as int]
                }));
            }
            assert(tv.drop_last() =~= sv);
            assert(tv.last() == (k, v));
            assert forall|i1: int, j1: int| 0 <= i1 < j1 < tv.len() implies (#[trigger] tv[i1]).0
                != (#[trigger] tv[j1]).0 by {
                if j1 < n {
                    assert(tv[i1] == sv[i1] && tv[j1] == sv[j1]);
                } else {
                    assert(tv[i1] == sv[i1] && tv[j1] == (k, v));
                }
            }
        }
    }

    /// Looks a name up: `Some` of its value exactly when the name is bound.
    pub fn get(&self, key: &str) -> (r: Option<&String>)
        requires
            self.wf(),
        ensures
            r is Some <==> self@.contains_key(key@),
            r matches Some(v) ==> self@[key@] == v@,
    {
        let n = self.entries.len();
        let mut i: usize = 0;
        while i < n
            invariant
                i <= n,
                n == self.entries@.len(),
                self.wf(),
                forall|j: int| 0 <= j < i ==> (#[trigger] self.entries_view()[j]).0 != key@,
            decreases n - i,
        {
            let e = &self.entries[i];
            if str_eq(e.0.as_str(), key) {
                proof {
                    lemma_map_of_entries_get(self.entries_view(), i as int);
                }
                return Some(&self.entries[i].1);
            }
            i = i + 1;
        }
        proof {
            lemma_map_of_entries_contains(self.entries_view(), key@);
        }
        None
    }

    /// Whether no name is bound.
    pub fn is_empty(&self) -> (r: bool)
        requires
            self.wf(),
        ensures
            r <==> self@ == Map::<Seq<char>, Seq<char>>::empty(),
    {
        let r = self.entries.is_empty();
        proof {
            if self.entries@.len() == 0 {
                assert(self.entries_view() =~= Seq::<(Seq<char>, Seq<char>)>::empty());
            } else {
                lemma_map_of_entries_get(self.entries_view(), 0);
                assert(self@.contains_key(self.entries_view()[0].0));
            }
        }
        r
    }
}

/// One `key=value` piece, split at its first `=`; rejected when `=` is
/// missing or either side is empty.
pub open spec fn spec_param_pair(piece: Seq<char>) -> Option<(Seq<char>, Seq<char>)> {
    match spec_find_char(piece, '=') {
        None => None,
        Some(i) => {
            let k = piece.take(i);
            let v = piece.skip(i + 1);
            if k.len() == 0 || v.len() == 0 {
                None
            } else {
                Some((k, v))
            }
        },
    }
}

/// The map the `&`-separated pieces denote, a later piece overriding an
/// earlier one; `None` when any piece is malformed.
pub open spec fn spec_params_map(pieces: Seq<Seq<char>>, acc: Map<Seq<char>, Seq<char>>) -> Option<
    Map<Seq<char>, Seq<char>>,
>
    decreases pieces.len(),
{
    if pieces.len() == 0 {
        Some(acc)
    } else {
        match spec_param_pair(pieces[0]) {
            None => None,
            Some(pair) => spec_params_map(pieces.drop_first(), acc.insert(pair.0, pair.1)),
        }
    }
}

/// What a request target denotes: its uri and parameter map, or a parse
/// failure.
pub open spec fn spec_target(s: Seq<char>) -> Option<(Seq<char>, Map<Seq<char>, Seq<char>>)> {
    match spec_find_char(s, '?') {
        None => Some((s, Map::<Seq<char>, Seq<char>>::empty())),
        Some(i) => {
            match spec_params_map(
                spec_split_char(s.skip(i + 1), '&'),
                Map::<Seq<char>, Seq<char>>::empty(),
            ) {
                None => None,
                Some(m) => Some((s.take(i), m)),
            }
        },
    }
}

/// A request-line target: the uri path and the query parameters.
#[derive(Debug, Clone, PartialEq)]
pub struct RequestTarget {
    pub uri: String,
    pub request_params: QueryParams,
}

impl RequestTarget {
    /// Parses a target: `Ok` exactly when every query parameter is
    /// well-formed, `Err` with a fixed message otherwise.
    pub fn new(s: &String) -> (r: Result<Self, String>)
        ensures
            r matches Ok(t) ==> spec_target(s@) == Some((t.uri@, t.request_params@))
                && t.request_params.wf(),
            r is Err <==> spec_target(s@) is None,
            r matches Err(m) ==> m@ == "Could not parse request param"@,
    {
        match find_char(s.as_str(), '?') {
            None => {
                Ok(RequestTarget { uri: s.clone(), request_params: QueryParams::new() })
            },
            Some(i) => {
                proof {
                    crate::text::lemma_find_char_props(s@, '?');
                }
                let n = s.as_str().unicode_len();
                let uri = s.as_str().substring_char(0, i);
                let params_str = s.as_str().substring_char(i + 1, n);
                proof {
                    assert(uri@ =~= s@.take(i as int));
                    assert(params_str@ =~= s@.skip(i as int + 1));
                }
                Self::with_request_params(uri, params_str)
            },
        }
    }

    /// Parses a query string into a target with the given uri.
    pub fn with_request_params(uri: &str, params: &str) -> (r: Result<Self, String>)
        ensures
            r matches Ok(t) ==> t.uri@ == uri@ && spec_params_map(
                spec_split_char(params@, '&'),
                Map::<Seq<char>, Seq<char>>::empty(),
            ) == Some(t.request_params@) && t.request_params.wf(),
            r is Err <==> spec_params_map(
                spec_split_char(params@, '&'),
                Map::<Seq<char>, Seq<char>>::empty(),
            ) is None,
            r matches Err(m) ==> m@ == "Could not parse request param"@,
    {
        let pieces = split_char(params, '&');
        let ghost pv = spec_split_char(params@, '&');
        let mut qp = QueryParams::new();
        let n = pieces.len();
        let mut i: usize = 0;
        proof {
            assert(pv.skip(0) =~= pv);
        }
        while i < n
            invariant
                i <= n,
                n == pieces@.len(),
                pv == spec_split_char(params@, '&'),
                string_views(pieces@) == pv,
                qp.wf(),
                spec_params_map(pv.skip(i as int), qp@) == spec_params_map(
                    pv,
                    Map::<Seq<char>, Seq<char>>::empty(),
                ),
            decreases n - i,
        {
            let piece = &pieces[i];
            let ghost cur = pv.skip(i as int);
            proof {
                assert(cur[0] == pv[i as int]);
                assert(pv[i as int] == piece@);
                assert(cur.drop_first() =~= pv.skip(i as int + 1));
            }
            match find_char(piece.as_str(), '=') {
                None => {
                    proof {
                        assert(cur.len() > 0);
                        assert(spec_param_pair(cur[0]) is None);
                        assert(spec_params_map(cur, qp@) is None);
                    }
                    return Err(String::from_str("Could not parse request param"));
                },
                Some(j) => {
                    proof {
                        crate::text::lemma_find_char_props(piece@, '=');
                    }
                    let m = piece.as_str().unicode_len();
                    if j == 0 || j + 1 == m {
                        proof {
                            assert(piece@.take(j as int).len() == 0 || piece@.skip(
                                j as int + 1,
                            ).len() == 0);
                            assert(spec_param_pair(cur[0]) is None);
                            assert(cur.len() > 0);
                            assert(spec_params_map(cur, qp@) is None);
                        }
                        return Err(String::from_str("Could not parse request param"));
                    }
                    let key = piece.as_str().substring_char(0, j);
                    let value = piece.as_str().substring_char(j + 1, m);
                    proof {
                        assert(key@ =~= piece@.take(j as int));
                        assert(value@ =~= piece@.skip(j as int + 1));
                    }
                    qp.insert(key.to_owned(), value.to_owned());
                },
            }
            i = i + 1;
        }
        proof {
            assert(pv.skip(n as int) =~= Seq::<Seq<char>>::empty());
        }
        Ok(RequestTarget { uri: uri.to_owned(), request_params: qp })
    }
}

} // verus!
