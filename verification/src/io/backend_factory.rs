//! A registry of storage-backend builders, keyed by backend name.
use crate::error::{Error, ErrorCode, Result};
use crate::text::{bytes_lt, lemma_bytes_lt_irreflexive, lemma_bytes_lt_total, lemma_bytes_lt_transitive, lemma_utf8_injective, str_eq, str_less, utf8};
use vstd::prelude::*;

verus! {

/// Names in strictly ascending byte order (so each appears once).
pub open spec fn names_sorted(names: Seq<Seq<char>>) -> bool {
    forall|i: int, j: int| 0 <= i < j < names.len() ==> bytes_lt(utf8(#[trigger] names[i]), utf8(#[trigger] names[j]))
}

/// One registered builder.
struct Registration<B> {
    name: String,
    builder: B,
}

/// A registry of backend builders by name. Names are kept in ascending
/// byte order, each once; creating a backend calls its builder afresh.
pub struct BackendFactory<B> {
    registry: Vec<Registration<B>>,
}

impl<B> BackendFactory<B> {
    /// The registered names, in ascending byte order.
    pub closed spec fn names(&self) -> Seq<Seq<char>> {
        self.registry@.map_values(|r: Registration<B>| r.name@)
    }

    /// The builders, in the order of their names.
    pub closed spec fn builders(&self) -> Seq<B> {
        self.registry@.map_values(|r: Registration<B>| r.builder)
    }

    #[verifier::type_invariant]
    spec fn sorted(&self) -> bool {
        names_sorted(self.names())
    }

    /// An empty registry.
    pub fn new() -> (f: Self)
        ensures
            f.names() == Seq::<Seq<char>>::empty(),
            f.builders() == Seq::<B>::empty(),
    {
        let f = BackendFactory { registry: Vec::new() };
        assert(f.names() =~= Seq::<Seq<char>>::empty());
        assert(f.builders() =~= Seq::<B>::empty());
        f
    }

    /// Registers `builder` under `name`, keeping the names in ascending
    /// byte order. A name already registered fails with
    /// [`ErrorCode::InvalidArgument`] and changes nothing.
    pub fn register(&mut self, name: &str, builder: B) -> (r: Result<()>)
        ensures
            names_sorted(final(self).names()),
            old(self).names().contains(name@) ==> (r matches Err(e) && e.kind() == ErrorCode::InvalidArgument
                && e.text() == "BackendFactory::registerBackend: name already registered"@
                && final(self).names() == old(self).names() && final(self).builders() == old(self).builders()),
            !old(self).names().contains(name@) ==> {
                &&& r is Ok
                &&& exists|pos: int|
                    0 <= pos <= old(self).names().len() && final(self).names() == old(self).names().insert(pos, name@)
                        && final(self).builders() == old(self).builders().insert(pos, builder)
            },
    {
        proof {
            use_type_invariant(&*self);
        }
        let ghost old_n = self.names();
        let ghost old_b = self.builders();
        let mut i: usize = 0;
        while i < self.registry.len() && str_less(self.registry[i].name.as_str(), name)
            invariant
                0 <= i <= self.registry@.len(),
                old_n == self.names(),
                names_sorted(old_n),
                forall|k: int| 0 <= k < i ==> bytes_lt(utf8(#[trigger] old_n[k]), utf8(name@)),
            decreases self.registry@.len() - i,
        {
            i = i + 1;
        }
        let ghost pos = i as int;
        proof {
            assert forall|k: int| pos <= k < old_n.len() && old_n[k] != name@ implies bytes_lt(utf8(name@), utf8(#[trigger] old_n[k])) by {
                lemma_utf8_injective(old_n[k], name@);
                if old_n[pos] != name@ {
                    lemma_utf8_injective(old_n[pos], name@);
                    lemma_bytes_lt_total(utf8(old_n[pos]), utf8(name@));
                }
                if k > pos {
                    assert(bytes_lt(utf8(old_n[pos]), utf8(old_n[k])));
                    if old_n[pos] != name@ {
                        lemma_bytes_lt_transitive(utf8(name@), utf8(old_n[pos]), utf8(old_n[k]));
                    }
                } else {
                    lemma_bytes_lt_total(utf8(old_n[k]), utf8(name@));
                }
            }
        }
        if i < self.registry.len() && str_eq(self.registry[i].name.as_str(), name) {
            assert(old_n[pos] == name@);
            return Err(Error::invalid_argument("BackendFactory::registerBackend: name already registered"));
        }
        proof {
            assert forall|k: int| 0 <= k < old_n.len() implies old_n[k] != name@ by {
                lemma_bytes_lt_irreflexive(utf8(name@));
                if k >= pos && old_n[k] == name@ {
                    if k > pos {
                        assert(bytes_lt(utf8(old_n[pos]), utf8(old_n[k])));
                        assert(old_n[pos] != name@);
                        lemma_bytes_lt_transitive(utf8(name@), utf8(old_n[pos]), utf8(name@));
                    }
                }
            }
        }
        let mut registry: Vec<Registration<B>> = Vec::new();
        std::mem::swap(&mut registry, &mut self.registry);
        registry.insert(i, Registration { name: name.to_owned(), builder });
        let ghost new_n = registry@.map_values(|r: Registration<B>| r.name@);
        proof {
            assert(new_n =~= old_n.insert(pos, name@));
            assert(registry@.map_values(|r: Registration<B>| r.builder) =~= old_b.insert(pos, builder));
            assert forall|a: int, b: int| 0 <= a < b < new_n.len() implies bytes_lt(utf8(#[trigger] new_n[a]), utf8(#[trigger] new_n[b])) by {
                if a < pos && b > pos {
                    assert(new_n[b] == old_n[b - 1]);
                    if a < b - 1 {
                        assert(bytes_lt(utf8(old_n[a]), utf8(old_n[b - 1])));
                    }
                } else if a == pos {
                    assert(new_n[b] == old_n[b - 1]);
                } else if a > pos {
                    assert(new_n[a] == old_n[a - 1]);
                    assert(new_n[b] == old_n[b - 1]);
                }
            }
        }
        self.registry = registry;
        Ok(())
    }

    /// The registered names, in ascending byte order.
    pub fn registered_backends(&self) -> (names: Vec<String>)
        ensures
            names@.map_values(|s: String| s@) == self.names(),
    {
        let mut names: Vec<String> = Vec::new();
        let mut i: usize = 0;
        while i < self.registry.len()
            invariant
                i <= self.registry@.len(),
                names@.len() == i,
                forall|k: int| 0 <= k < i ==> (#[trigger] names@[k])@ == self.names()[k],
            decreases self.registry@.len() - i,
        {
            let name = self.registry[i].name.clone();
            assert(name@ == self.names()[i as int]);
            names.push(name);
            i = i + 1;
        }
        assert(names@.map_values(|s: String| s@) =~= self.names());
        names
    }

    /// Builds a fresh backend with the builder registered under `name`; an
    /// unknown name fails with [`ErrorCode::NotFound`].
    pub fn create<T>(&self, name: &str) -> (r: Result<T>)
        where B: Fn() -> T,
        requires
            forall|i: int| 0 <= i < self.builders().len() ==> call_requires(#[trigger] self.builders()[i], ()),
        ensures
            !self.names().contains(name@) ==> (r matches Err(e) && e.kind() == ErrorCode::NotFound),
            self.names().contains(name@) ==> (r matches Ok(t) && exists|i: int|
                0 <= i < self.names().len() && self.names()[i] == name@ && call_ensures(self.builders()[i], (), t)),
    {
        let mut i: usize = 0;
        while i < self.registry.len()
            invariant
                i <= self.registry@.len(),
                forall|k: int| 0 <= k < i ==> self.names()[k] != name@,
                forall|k: int| 0 <= k < self.builders().len() ==> call_requires(#[trigger] self.builders()[k], ()),
            decreases self.registry@.len() - i,
        {
            if str_eq(self.registry[i].name.as_str(), name) {
                assert(self.builders()[i as int] == self.registry@[i as int].builder);
                assert(self.names()[i as int] == name@);
                assert(call_requires(self.builders()[i as int], ()));
                let backend = (self.registry[i].builder)();
                return Ok(backend);
            }
            i = i + 1;
        }
        Err(Error::not_found("BackendFactory::create: no such backend"))
    }
}

impl<B> Default for BackendFactory<B> {
    /// An empty registry.
    fn default() -> (f: Self)
        ensures
            f.names() == Seq::<Seq<char>>::empty(),
            f.builders() == Seq::<B>::empty(),
    {
        Self::new()
    }
}

} // verus!
