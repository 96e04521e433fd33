//! Format-neutral intermediate representation of a document to store.
use crate::error::{Error, ErrorCode, Result};
use crate::text::{bytes_lt, lemma_bytes_lt_irreflexive, lemma_bytes_lt_total, lemma_bytes_lt_transitive, lemma_utf8_injective, str_eq, str_less, utf8};
use vstd::prelude::*;

verus! {

/// A field table: (key, value) pairs.
pub type Entries = Seq<(Seq<char>, Seq<char>)>;

/// Keys strictly ascending by their UTF-8 bytes (hence pairwise distinct).
pub open spec fn keys_sorted(e: Entries) -> bool {
    forall|i: int, j: int| 0 <= i < j < e.len() ==> bytes_lt(utf8(#[trigger] e[i].0), utf8(#[trigger] e[j].0))
}

/// Whether the table holds key `k`.
pub open spec fn has_key(e: Entries, k: Seq<char>) -> bool {
    exists|i: int| 0 <= i < e.len() && #[trigger] e[i].0 == k
}

/// The key/value map a field table denotes.
pub open spec fn entries_map(e: Entries) -> Map<Seq<char>, Seq<char>> {
    Map::new(
        |k: Seq<char>| has_key(e, k),
        |k: Seq<char>| e[choose|i: int| 0 <= i < e.len() && #[trigger] e[i].0 == k].1,
    )
}

/// In a sorted table, entry `i` is what the map holds for its key.
pub proof fn lemma_entries_map_at(e: Entries, i: int)
    requires
        keys_sorted(e),
        0 <= i < e.len(),
    ensures
        entries_map(e).contains_key(e[i].0),
        entries_map(e)[e[i].0] == e[i].1,
{
    assert(has_key(e, e[i].0));
    let j = choose|j: int| 0 <= j < e.len() && #[trigger] e[j].0 == e[i].0;
    if j != i {
        lemma_bytes_lt_irreflexive(utf8(e[i].0));
        if j < i {
            assert(bytes_lt(utf8(e[j].0), utf8(e[i].0)));
        } else {
            assert(bytes_lt(utf8(e[i].0), utf8(e[j].0)));
        }
    }
}

/// A format-neutral document node: a table of string fields kept in
/// ascending key order, plus nested child nodes.
#[derive(Debug, Default, PartialEq, Eq)]
pub struct StorageModel {
    fields: Vec<(String, String)>,
    children: Vec<StorageModel>,
}

impl StorageModel {
    /// Field keys are kept strictly ascending.
    #[verifier::type_invariant]
    spec fn sorted(&self) -> bool {
        keys_sorted(self.entries())
    }

    /// The field table, in ascending key order.
    pub closed spec fn entries(&self) -> Entries {
        self.fields@.map_values(|p: (String, String)| (p.0@, p.1@))
    }

    /// The fields as a map from key to value.
    pub open spec fn field_map(&self) -> Map<Seq<char>, Seq<char>> {
        entries_map(self.entries())
    }

    /// The child nodes.
    pub closed spec fn child_nodes(&self) -> Seq<StorageModel> {
        self.children@
    }

    /// An empty model: no fields, no children.
    pub fn new() -> (m: Self)
        ensures
            m.entries() == Seq::<(Seq<char>, Seq<char>)>::empty(),
            m.field_map() == Map::<Seq<char>, Seq<char>>::empty(),
            m.child_nodes() == Seq::<StorageModel>::empty(),
    {
        let m = StorageModel { fields: Vec::new(), children: Vec::new() };
        assert(m.entries() =~= Seq::<(Seq<char>, Seq<char>)>::empty());
        assert(m.field_map() =~= Map::<Seq<char>, Seq<char>>::empty());
        m
    }

    /// Sets (or overwrites) the field `key` to `value`; the table stays in
    /// ascending key order.
    pub fn set_field(&mut self, key: &str, value: &str)
        ensures
            final(self).field_map() == old(self).field_map().insert(key@, value@),
            keys_sorted(final(self).entries()),
            final(self).child_nodes() == old(self).child_nodes(),
    {
        proof {
            use_type_invariant(&*self);
        }
        let ghost old_e = self.entries();
        let mut fields: Vec<(String, String)> = Vec::new();
        std::mem::swap(&mut fields, &mut self.fields);
        assert(fields@.map_values(|p: (String, String)| (p.0@, p.1@)) == old_e);
        // Find the first position whose key is not smaller than `key`.
        let mut i: usize = 0;
        while i < fields.len() && str_less(fields[i].0.as_str(), key)
            invariant
                0 <= i <= fields@.len(),
                old_e == fields@.map_values(|p: (String, String)| (p.0@, p.1@)),
                keys_sorted(old_e),
                forall|k: int| 0 <= k < i ==> bytes_lt(utf8(#[trigger] old_e[k].0), utf8(key@)),
            decreases fields@.len() - i,
        {
            i = i + 1;
        }
        let ghost pos = i as int;
        let replace = i < fields.len() && str_eq(fields[i].0.as_str(), key);
        let entry = (String::from_str(key), String::from_str(value));
        if replace {
            fields.set(i, entry);
        } else {
            fields.insert(i, entry);
        }
        let ghost new_e = fields@.map_values(|p: (String, String)| (p.0@, p.1@));
        proof {
            // Every key after `pos` is not smaller than `key`.
            assert forall|k: int| pos <= k < old_e.len() implies !bytes_lt(
                utf8(#[trigger] old_e[k].0),
                utf8(key@),
            ) by {
                if k > pos {
                    assert(bytes_lt(utf8(old_e[pos].0), utf8(old_e[k].0)));
                    if bytes_lt(utf8(old_e[k].0), utf8(key@)) {
                        lemma_bytes_lt_transitive(utf8(old_e[pos].0), utf8(old_e[k].0), utf8(key@));
                    }
                }
            }
            if replace {
                assert(new_e =~= old_e.update(pos, (key@, value@)));
            } else {
                assert(new_e =~= old_e.insert(pos, (key@, value@)));
                if pos < old_e.len() {
                    lemma_utf8_injective(old_e[pos].0, key@);
                    lemma_bytes_lt_total(utf8(old_e[pos].0), utf8(key@));
                }
            }
            assert forall|a: int, b: int| 0 <= a < b < new_e.len() implies bytes_lt(
                utf8(#[trigger] new_e[a].0),
                utf8(#[trigger] new_e[b].0),
            ) by {
                if replace {
                    if a == pos {
                        lemma_utf8_injective(old_e[pos].0, key@);
                        assert(utf8(old_e[pos].0) == utf8(key@));
                        assert(bytes_lt(utf8(old_e[a].0), utf8(old_e[b].0)));
                    } else if b == pos {
                        lemma_utf8_injective(old_e[pos].0, key@);
                        assert(bytes_lt(utf8(old_e[a].0), utf8(old_e[b].0)));
                    }
                } else {
                    if a < pos && b <= pos {
                    } else if a < pos && b > pos {
                        assert(new_e[b] == old_e[b - 1]);
                        if b - 1 >= pos {
                            assert(bytes_lt(utf8(old_e[a].0), utf8(key@)));
                            lemma_utf8_injective(old_e[pos].0, key@);
                            if b - 1 > pos {
                                assert(bytes_lt(utf8(old_e[pos].0), utf8(old_e[b - 1].0)));
                            }
                            lemma_bytes_lt_total(utf8(old_e[pos].0), utf8(key@));
                            if b - 1 == pos {
                                lemma_bytes_lt_transitive(
                                    utf8(old_e[a].0),
                                    utf8(key@),
                                    utf8(old_e[pos].0),
                                );
                            } else {
                                lemma_bytes_lt_transitive(
                                    utf8(old_e[a].0),
                                    utf8(key@),
                                    utf8(old_e[pos].0),
                                );
                                lemma_bytes_lt_transitive(
                                    utf8(old_e[a].0),
                                    utf8(old_e[pos].0),
                                    utf8(old_e[b - 1].0),
                                );
                            }
                        }
                    } else if a == pos {
                        assert(new_e[b] == old_e[b - 1]);
                        lemma_utf8_injective(old_e[pos].0, key@);
                        lemma_bytes_lt_total(utf8(old_e[pos].0), utf8(key@));
                        if b - 1 > pos {
                            assert(bytes_lt(utf8(old_e[pos].0), utf8(old_e[b - 1].0)));
                            lemma_bytes_lt_transitive(
                                utf8(key@),
                                utf8(old_e[pos].0),
                                utf8(old_e[b - 1].0),
                            );
                        }
                    } else {
                        assert(new_e[a] == old_e[a - 1]);
                        assert(new_e[b] == old_e[b - 1]);
                    }
                }
            }
            assert(keys_sorted(new_e));
            // The map view gains exactly the new binding.
            let m_old = entries_map(old_e);
            let m_new = entries_map(new_e);
            assert forall|k: Seq<char>| #[trigger] m_new.contains_key(k) <==> m_old.insert(
                key@,
                value@,
            ).contains_key(k) by {
                if m_new.contains_key(k) {
                    let j = choose|j: int| 0 <= j < new_e.len() && #[trigger] new_e[j].0 == k;
                    if k != key@ {
                        if replace {
                            assert(old_e[j].0 == k);
                        } else if j < pos {
                            assert(old_e[j].0 == k);
                        } else {
                            assert(old_e[j - 1].0 == k);
                        }
                    }
                }
                if m_old.contains_key(k) && k != key@ {
                    let j = choose|j: int| 0 <= j < old_e.len() && #[trigger] old_e[j].0 == k;
                    if replace || j < pos {
                        assert(new_e[j].0 == k);
                    } else {
                        assert(new_e[j + 1].0 == k);
                    }
                }
                if k == key@ {
                    assert(new_e[pos].0 == k);
                }
            }
            assert forall|k: Seq<char>| #[trigger] m_new.contains_key(k) implies m_new[k]
                == m_old.insert(key@, value@)[k] by {
                let j = choose|j: int| 0 <= j < new_e.len() && #[trigger] new_e[j].0 == k;
                lemma_entries_map_at(new_e, j);
                if k == key@ {
                    lemma_entries_map_at(new_e, pos);
                } else {
                    if replace || j < pos {
                        lemma_entries_map_at(old_e, j);
                    } else {
                        lemma_entries_map_at(old_e, j - 1);
                    }
                }
            }
            assert(m_new =~= m_old.insert(key@, value@));
        }
        self.fields = fields;
    }

    /// The value of field `key`; [`ErrorCode::NotFound`] exactly when the
    /// field was never set.
    pub fn field(&self, key: &str) -> (r: Result<&str>)
        ensures
            r is Ok <==> self.field_map().contains_key(key@),
            r matches Ok(v) ==> self.field_map()[key@] == v@,
            r matches Err(e) ==> e.kind() == ErrorCode::NotFound,
    {
        proof {
            use_type_invariant(self);
        }
        let ghost e = self.entries();
        let mut i: usize = 0;
        while i < self.fields.len()
            invariant
                0 <= i <= self.fields@.len(),
                e == self.fields@.map_values(|p: (String, String)| (p.0@, p.1@)),
                keys_sorted(e),
                forall|k: int| 0 <= k < i ==> (#[trigger] e[k]).0 != key@,
            decreases self.fields@.len() - i,
        {
            if str_eq(self.fields[i].0.as_str(), key) {
                proof {
                    lemma_entries_map_at(e, i as int);
                }
                return Ok(self.fields[i].1.as_str());
            }
            i = i + 1;
        }
        assert(!has_key(e, key@));
        Err(Error::not_found("StorageModel: no such field"))
    }

    /// The number of fields; the table is in ascending key order.
    pub fn field_count(&self) -> (n: usize)
        ensures
            n == self.entries().len(),
            keys_sorted(self.entries()),
    {
        proof {
            use_type_invariant(self);
        }
        self.fields.len()
    }

    /// The `i`-th field (in ascending key order) as `(key, value)`.
    pub fn field_at(&self, i: usize) -> (r: (&str, &str))
        requires
            i < self.entries().len(),
        ensures
            (r.0@, r.1@) == self.entries()[i as int],
    {
        (self.fields[i].0.as_str(), self.fields[i].1.as_str())
    }

    /// Invokes `f` once per field, in ascending key order.
    pub fn for_each_field<F: FnMut(&str, &str)>(&self, mut f: F)
        requires
            forall|g: F, k: &str, v: &str| g.requires((k, v)),
    {
        let mut i: usize = 0;
        while i < self.fields.len()
            invariant
                forall|g: F, k: &str, v: &str| g.requires((k, v)),
            decreases self.fields@.len() - i,
        {
            f(self.fields[i].0.as_str(), self.fields[i].1.as_str());
            i = i + 1;
        }
    }

    /// Appends a nested child node.
    pub fn add_child(&mut self, child: StorageModel)
        ensures
            final(self).child_nodes() == old(self).child_nodes().push(child),
            final(self).entries() == old(self).entries(),
    {
        proof {
            use_type_invariant(&*self);
        }
        let mut children: Vec<StorageModel> = Vec::new();
        std::mem::swap(&mut children, &mut self.children);
        children.push(child);
        self.children = children;
    }

    /// The child nodes.
    pub fn children(&self) -> (c: &[StorageModel])
        ensures
            c@ == self.child_nodes(),
    {
        self.children.as_slice()
    }

    /// The number of child nodes.
    pub fn child_count(&self) -> (n: usize)
        ensures
            n == self.child_nodes().len(),
    {
        self.children.len()
    }
}

} // verus!
