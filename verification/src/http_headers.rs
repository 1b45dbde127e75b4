//! The header map: case-sensitive names mapped to values, last write wins,
//! with a canonical byte encoding that lists names in lexicographic order.

use vstd::prelude::*;
use vstd::utf8::encode_utf8;
use crate::entries::{
    entry_views, lemma_map_of_entries_contains, lemma_map_of_entries_get,
    lemma_map_of_entries_update, map_of_entries, unique_keys,
};
use crate::text::{
    lemma_lex_lt_asym, lemma_lex_lt_trans, lemma_lex_lt_trichotomy, lex_lt, str_eq, str_lt,
};

verus! {

/// Strictly ascending names.
pub open spec fn sorted_keys(s: Seq<(Seq<char>, Seq<char>)>) -> bool {
    forall|i: int, j: int| 0 <= i < j < s.len() ==> lex_lt(
        (#[trigger] s[i]).0,
        (#[trigger] s[j]).0,
    )
}

/// Strictly sorted names are pairwise distinct.
pub proof fn lemma_sorted_keys_unique(s: Seq<(Seq<char>, Seq<char>)>)
    requires
        sorted_keys(s),
    ensures
        unique_keys(s),
{
    assert forall|i: int, j: int| 0 <= i < j < s.len() implies (#[trigger] s[i]).0 != (
    #[trigger] s[j]).0 by {
        lemma_lex_lt_asym(s[i].0, s[j].0);
    }
}

/// One header line's characters: `<name>: <value>\r\n`.
pub open spec fn spec_header_line_chars(e: (Seq<char>, Seq<char>)) -> Seq<char> {
    e.0 + ": "@ + e.1 + "\r\n"@
}

/// The header block's characters: one line per pair, in list order.
pub open spec fn spec_header_block_chars(s: Seq<(Seq<char>, Seq<char>)>) -> Seq<char>
    decreases s.len(),
{
    if s.len() == 0 {
        Seq::empty()
    } else {
        spec_header_block_chars(s.drop_last()) + spec_header_line_chars(s.last())
    }
}

/// HTTP headers: a case-sensitive name-to-value mapping; inserting an
/// existing name overwrites its value.  The pairs are kept strictly sorted
/// by name, which makes the byte encoding canonical.
#[derive(Debug, Clone, PartialEq)]
pub struct HttpHeaders {
    entries: Vec<(String, String)>,
}

impl View for HttpHeaders {
    type V = Map<Seq<char>, Seq<char>>;

    open spec fn view(&self) -> Map<Seq<char>, Seq<char>> {
        map_of_entries(self.entries_view())
    }
}

impl HttpHeaders {
    /// The (name, value) pairs in canonical (name-sorted) order.
    pub closed spec fn entries_view(&self) -> Seq<(Seq<char>, Seq<char>)> {
        entry_views(self.entries@)
    }

    /// Well-formed: pairs strictly sorted by name.
    pub open spec fn wf(&self) -> bool {
        sorted_keys(self.entries_view())
    }

    /// An empty header map.
    pub fn new() -> (r: Self)
        ensures
            r.wf(),
            r@ == Map::<Seq<char>, Seq<char>>::empty(),
            r.entries_view() == Seq::<(Seq<char>, Seq<char>)>::empty(),
    {
        let r = HttpHeaders { entries: Vec::new() };
        proof {
            assert(r.entries_view() =~= Seq::<(Seq<char>, Seq<char>)>::empty());
        }
        r
    }

    /// Builds a header map from pairs already in canonical order.
    pub(crate) fn from_sorted_entries(entries: Vec<(String, String)>) -> (r: Self)
        requires
            sorted_keys(entry_views(entries@)),
        ensures
            r.wf(),
            r.entries_view() == entry_views(entries@),
            r@ == map_of_entries(entry_views(entries@)),
    {
        HttpHeaders { entries }
    }

    /// Where `key` stands, or where it would be inserted: the position of
    /// the first name not below `key`, with the flag telling whether that
    /// name equals `key`.
    fn find_slot(&self, key: &str) -> (r: (usize, bool))
        requires
            self.wf(),
        ensures
            r.0 <= self.entries_view().len(),
            forall|j: int| 0 <= j < r.0 ==> lex_lt(
                (#[trigger] self.entries_view()[j]).0,
                key@,
            ),
            r.1 ==> r.0 < self.entries_view().len() && self.entries_view()[r.0 as int].0 == key@,
            !r.1 && r.0 < self.entries_view().len() ==> lex_lt(
                key@,
                self.entries_view()[r.0 as int].0,
            ),
    {
        let n = self.entries.len();
        let mut i: usize = 0;
        while i < n
            invariant
                i <= n,
                n == self.entries@.len(),
                self.wf(),
                forall|j: int| 0 <= j < i ==> lex_lt((#[trigger] self.entries_view()[j]).0, key@),
            decreases n - i,
        {
            let e = &self.entries[i];
            if str_eq(e.0.as_str(), key) {
                return (i, true);
            }
            if str_lt(key, e.0.as_str()) {
                return (i, false);
            }
            proof {
                lemma_lex_lt_trichotomy(self.entries_view()[i as int].0, key@);
            }
            i = i + 1;
        }
        (n, false)
    }

    /// Binds `key` to `value`, overwriting any earlier value of `key`.
    pub fn insert(&mut self, key: String, value: String)
        requires
            old(self).wf(),
        ensures
            final(self).wf(),
            final(self)@ == old(self)@.insert(key@, value@),
    {
        let ghost sv = old(self).entries_view();
        let ghost k = key@;
        let ghost v = value@;
        let (i, found) = self.find_slot(key.as_str());
        if found {
            self.entries.remove(i);
            self.entries.insert(i, (key, value));
            proof {
                let tv = self.entries_view();
                assert forall|j: int| 0 <= j < tv.len() implies #[trigger] tv[j] == (if j == i {
                    (k, v)
                } else {
                    sv[j]
                }) by {
                    assert(self.entries@[j] == (if j == i {
                        (self.entries@[i as int])
                    } else {
                        old(self).entries@[j]
                    }));
                }
                assert(tv[i as int] == (k, v));
                lemma_sorted_keys_unique(sv);
                assert forall|i1: int, j1: int| 0 <= i1 < j1 < tv.len() implies lex_lt(
                    (#[trigger] tv[i1]).0,
                    (#[trigger] tv[j1]).0,
                ) by {
                    assert(tv[i1].0 == sv[i1].0);
                    assert(tv[j1].0 == sv[j1].0);
                }
                lemma_sorted_keys_unique(tv);
                assert forall|j: int| 0 <= j < tv.len() implies (#[trigger] tv[j]) == (k, v) || (
                tv[j].0 != k && exists|j2: int| 0 <= j2 < sv.len() && #[trigger] sv[j2]
                    == tv[j]) by {
                    if j != i {
                        assert(sv[j] == tv[j]);
                        assert(sv[j].0 != sv[i as int].0);
                    }
                }
                assert forall|j2: int| 0 <= j2 < sv.len() && (#[trigger] sv[j2]).0 != k implies
                    exists|j: int| 0 <= j < tv.len() && #[trigger] tv[j] == sv[j2] by {
                    assert(tv[j2] == sv[j2]);
                }
                lemma_map_of_entries_update(sv, tv, k, v);
            }
        } else {
            self.entries.insert(i, (key, value));
            proof {
                let tv = self.entries_view();
                assert(tv.len() == sv.len() + 1);
                assert forall|j: int| 0 <= j < tv.len() implies #[trigger] tv[j] == (if j < i {
                    sv[j]
                } else if j == i {
                    (k, v)
                } else {
                    sv[j - 1]
                }) by {
                    assert(self.entries@[j] == (if j < i {
                        old(self).entries@[j]
                    } else if j == i {
                        self.entries@[i as int]
                    } else {
                        old(self).entries@[j - 1]
                    }));
                }
                assert(tv[i as int] == (k, v));
                // Every pair after the slot sits strictly above `key`.
                assert forall|j: int| i < j < tv.len() implies lex_lt(k, (#[trigger] tv[j]).0) by {
                    assert(tv[j] == sv[j - 1]);
                    if j - 1 > i {
                        lemma_lex_lt_trans(k, sv[i as int].0, sv[j - 1].0);
                    }
                }
                assert forall|i1: int, j1: int| 0 <= i1 < j1 < tv.len() implies lex_lt(
                    (#[trigger] tv[i1]).0,
                    (#[trigger] tv[j1]).0,
                ) by {
                    if i1 < i && j1 < i {
                    } else if i1 < i && j1 == i {
                        assert(tv[i1] == sv[i1]);
                    } else if i1 == i {
                        assert(lex_lt(k, tv[j1].0));
                    } else if i1 < i && j1 > i {
                        assert(tv[i1] == sv[i1] && tv[j1] == sv[j1 - 1]);
                        assert(i1 < j1 - 1);
                    } else {
                        assert(tv[i1] == sv[i1 - 1] && tv[j1] == sv[j1 - 1]);
                    }
                }
                lemma_sorted_keys_unique(sv);
                lemma_sorted_keys_unique(tv);
                assert forall|j: int| 0 <= j < tv.len() implies (#[trigger] tv[j]) == (k, v) || (
                tv[j].0 != k && exists|j2: int| 0 <= j2 < sv.len() && #[trigger] sv[j2]
                    == tv[j]) by {
                    if j < i {
                        assert(sv[j] == tv[j]);
                        lemma_lex_lt_asym(sv[j].0, k);
                    } else if j > i {
                        assert(sv[j - 1] == tv[j]);
                        lemma_lex_lt_asym(k, tv[j].0);
                    }
                }
                assert forall|j2: int| 0 <= j2 < sv.len() && (#[trigger] sv[j2]).0 != k implies
                    exists|j: int| 0 <= j < tv.len() && #[trigger] tv[j] == sv[j2] by {
                    if j2 < i {
                        assert(tv[j2] == sv[j2]);
                    } else {
                        assert(tv[j2 + 1] == sv[j2]);
                    }
                }
                lemma_map_of_entries_update(sv, tv, k, v);
            }
        }
    }

    /// Looks a name up: `Some` of its value exactly when the name is bound.
    pub fn get(&self, key: &str) -> (r: Option<&String>)
        requires
            self.wf(),
        ensures
            r is Some <==> self@.contains_key(key@),
            r matches Some(v) ==> self@[key@] == v@,
    {
        let n = self.entries.len();
        let mut i: usize = 0;
        while i < n
            invariant
                i <= n,
                n == self.entries@.len(),
                self.wf(),
                forall|j: int| 0 <= j < i ==> (#[trigger] self.entries_view()[j]).0 != key@,
            decreases n - i,
        {
            let e = &self.entries[i];
            if str_eq(e.0.as_str(), key) {
                proof {
                    lemma_sorted_keys_unique(self.entries_view());
                    lemma_map_of_entries_get(self.entries_view(), i as int);
                }
                return Some(&self.entries[i].1);
            }
            i = i + 1;
        }
        proof {
            lemma_map_of_entries_contains(self.entries_view(), key@);
        }
        None
    }

    /// The stored pairs, in canonical order.
    pub fn iter(&self) -> (r: &Vec<(String, String)>)
        ensures
            entry_views(r@) == self.entries_view(),
    {
        &self.entries
    }

    /// The canonical byte encoding: `<name>: <value>\r\n` per pair, names
    /// in lexicographic order.
    pub fn to_bytes(&self) -> (r: Vec<u8>)
        ensures
            r@ == encode_utf8(spec_header_block_chars(self.entries_view())),
    {
        let mut s = String::new();
        let n = self.entries.len();
        let mut i: usize = 0;
        proof {
            assert(self.entries_view().take(0) =~= Seq::<(Seq<char>, Seq<char>)>::empty());
        }
        while i < n
            invariant
                i <= n,
                n == self.entries@.len(),
                s@ == spec_header_block_chars(self.entries_view().take(i as int)),
            decreases n - i,
        {
            let e = &self.entries[i];
            s.append(e.0.as_str());
            s.append(": ");
            s.append(e.1.as_str());
            s.append("\r\n");
            proof {
                let sv = self.entries_view();
                assert(sv.take(i + 1).drop_last() =~= sv.take(i as int));
                assert(sv.take(i + 1).last() == sv[i as int]);
                assert(s@ =~= spec_header_block_chars(sv.take(i + 1)));
            }
            i = i + 1;
        }
        proof {
            assert(self.entries_view().take(n as int) =~= self.entries_view());
        }
        s.as_str().as_bytes_vec()
    }
}

impl Default for HttpHeaders {
    /// The default header map is empty.
    fn default() -> (r: Self)
        ensures
            r.wf(),
            r@ == Map::<Seq<char>, Seq<char>>::empty(),
            r.entries_view() == Seq::<(Seq<char>, Seq<char>)>::empty(),
    {
        HttpHeaders::new()
    }
}

} // verus!
