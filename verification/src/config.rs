//! The key-value configuration capability all higher logic depends on: flat
//! dotted string keys, scoped get / get-all / set / add / clear. [`Store`] is
//! the library's own in-memory backing; other backings (a version-control
//! tool's configuration files, say) can implement [`Config`] outside it.

use vstd::prelude::*;

use crate::errors::Error;
use crate::strutil::{starts_with, starts_with_spec, str_eq};

verus! {

/// A configuration store, modelled as a map from key to value, both taken as
/// character sequences.
pub trait Config {
    /// The mathematical contents of the store. An implementation outside
    /// the library leaves the default, an uninformative model; [`Store`]
    /// gives its own.
    open spec fn contents(&self) -> Map<Seq<char>, Seq<char>> {
        Map::empty()
    }

    /// Whether this store promises that enumeration, writes of fresh or
    /// existing keys, and removals never fail. An implementation outside
    /// the library leaves the default and promises nothing; [`Store`]
    /// promises it.
    open spec fn infallible(&self) -> bool {
        false
    }

    /// The value under `name`; `KeyNotFound` exactly when the store holds
    /// none.
    fn get(&self, name: &str) -> (r: Result<String, Error>)
        ensures
            match r {
                Ok(v) => self.contents().contains_key(name@) && v@ == self.contents()[name@],
                Err(e) => !self.contents().contains_key(name@) && (e matches Error::KeyNotFound(k)
                    && k@ == name@),
            },
    ;

    /// Every entry whose key starts with `prefix`, each exactly once, in no
    /// promised order. Only a backend that makes no [`Config::infallible`]
    /// promise may fail opaquely instead.
    fn get_all(&self, prefix: &str) -> (r: Result<Vec<(String, String)>, Error>)
        ensures
            r matches Ok(v) ==> forall|i: int, j: int|
                0 <= i < j < v@.len() ==> v@[i].0@ != v@[j].0@,
            r matches Ok(v) ==> forall|i: int|
                0 <= i < v@.len() ==> starts_with_spec(#[trigger] v@[i].0@, prefix@)
                    && self.contents().contains_key(v@[i].0@) && v@[i].1@
                    == self.contents()[v@[i].0@],
            r matches Ok(v) ==> covers_prefix(self.contents(), v@, prefix@),
            self.infallible() ==> r matches Ok(_),
    ;

    /// Appends a multi-valued entry rather than overwriting. Only the first
    /// value of a key is in the single-valued model, so success is owed (and
    /// possible) only for a key the store does not hold yet; appending a
    /// further value to an existing key falls outside the model and is
    /// refused.
    fn add(&mut self, name: &str, value: &str) -> (r: Result<(), Error>)
        ensures
            r matches Ok(_) ==> !old(self).contents().contains_key(name@) && final (self).contents()
                == old(self).contents().insert(name@, value@),
            r matches Err(_) ==> final (self).contents() == old(self).contents(),
            old(self).infallible() ==> final (self).infallible(),
            old(self).infallible() && !old(self).contents().contains_key(name@) ==> r matches Ok(
                _,
            ),
    ;

    /// Sets `name` to `value`, overwriting any previous value.
    fn set(&mut self, name: &str, value: &str) -> (r: Result<(), Error>)
        ensures
            r matches Ok(_) ==> final (self).contents() == old(self).contents().insert(
                name@,
                value@,
            ),
            r matches Err(_) ==> final (self).contents() == old(self).contents(),
            old(self).infallible() ==> final (self).infallible() && r matches Ok(_),
    ;

    /// Removes `name` from the store.
    fn clear(&mut self, name: &str) -> (r: Result<(), Error>)
        ensures
            r matches Ok(_) ==> final (self).contents() == old(self).contents().remove(name@),
            r matches Err(_) ==> final (self).contents() == old(self).contents(),
            old(self).infallible() ==> final (self).infallible() && r matches Ok(_),
    ;
}

/// Every key of `m` that starts with `prefix` appears among the keys of `v`.
pub open spec fn covers_prefix(
    m: Map<Seq<char>, Seq<char>>,
    v: Seq<(String, String)>,
    prefix: Seq<char>,
) -> bool {
    forall|k: Seq<char>|
        m.contains_key(k) && #[trigger] starts_with_spec(k, prefix) ==> exists|i: int|
            0 <= i < v.len() && (#[trigger] v[i].0@) == k
}

/// No two entries share a key.
spec fn keys_distinct(s: Seq<(String, String)>) -> bool {
    forall|i: int, j: int| 0 <= i < j < s.len() ==> s[i].0@ != s[j].0@
}

/// The map an entry list denotes; a later entry would win over an earlier
/// one, though [`Store`] keeps keys unique.
spec fn map_of(s: Seq<(String, String)>) -> Map<Seq<char>, Seq<char>>
    decreases s.len(),
{
    if s.len() == 0 {
        Map::empty()
    } else {
        map_of(s.drop_last()).insert(s.last().0@, s.last().1@)
    }
}

proof fn lemma_map_of_props(s: Seq<(String, String)>)
    requires
        keys_distinct(s),
    ensures
        forall|k: Seq<char>|
            #[trigger] map_of(s).contains_key(k) <==> exists|i: int|
                0 <= i < s.len() && s[i].0@ == k,
        forall|i: int| 0 <= i < s.len() ==> #[trigger] map_of(s)[s[i].0@] == s[i].1@,
    decreases s.len(),
{
    if s.len() > 0 {
        let t = s.drop_last();
        assert(forall|i: int| 0 <= i < t.len() ==> t[i] == s[i]);
        lemma_map_of_props(t);
        let last = s.last();
        assert(map_of(s) == map_of(t).insert(last.0@, last.1@));
        assert forall|k: Seq<char>| #[trigger] map_of(s).contains_key(k) implies exists|i: int|
            0 <= i < s.len() && s[i].0@ == k by {
            if k == last.0@ {
                assert(s[s.len() - 1].0@ == k);
            } else {
                assert(map_of(t).contains_key(k));
                let i = choose|i: int| 0 <= i < t.len() && t[i].0@ == k;
                assert(s[i].0@ == k);
            }
        }
        assert forall|k: Seq<char>|
            (exists|i: int| 0 <= i < s.len() && s[i].0@ == k) implies #[trigger] map_of(
            s,
        ).contains_key(k) by {
            let i = choose|i: int| 0 <= i < s.len() && s[i].0@ == k;
            if i == s.len() - 1 {
                assert(map_of(s).contains_key(last.0@));
            } else {
                assert(t[i].0@ == k);
                assert(map_of(t).contains_key(k));
            }
        }
        assert forall|i: int| 0 <= i < s.len() implies #[trigger] map_of(s)[s[i].0@]
            == s[i].1@ by {
            if i < s.len() - 1 {
                assert(s[i].0@ != last.0@);
                assert(map_of(t)[t[i].0@] == t[i].1@);
                assert(map_of(s)[s[i].0@] == map_of(t)[s[i].0@]);
            }
        }
    }
}

/// The library's own in-memory store: an entry list with unique keys.
pub struct Store {
    entries: Vec<(String, String)>,
}

impl Store {
    #[verifier::type_invariant]
    spec fn wf(&self) -> bool {
        keys_distinct(self.entries@)
    }

    /// An empty store.
    pub fn new() -> (r: Store)
        ensures
            r.contents() == Map::<Seq<char>, Seq<char>>::empty(),
    {
        Store { entries: Vec::new() }
    }

    /// A copy of `entries` without any entry keyed `name`, in order.
    fn without_key(entries: &Vec<(String, String)>, name: &str) -> (out: Vec<(String, String)>)
        requires
            keys_distinct(entries@),
        ensures
            keys_distinct(out@),
            map_of(out@) == map_of(entries@).remove(name@),
            forall|j: int| 0 <= j < out@.len() ==> #[trigger] out@[j].0@ != name@,
    {
        proof {
            lemma_map_of_props(entries@);
        }
        let ghost orig = entries@;
        let mut out: Vec<(String, String)> = Vec::new();
        let ghost mut src: Seq<int> = Seq::empty();
        let mut i: usize = 0;
        proof {
            assert(orig.take(0) =~= Seq::<(String, String)>::empty());
            assert(map_of(out@) =~= map_of(orig.take(0)).remove(name@));
        }
        while i < entries.len()
            invariant
                entries@ == orig,
                keys_distinct(orig),
                0 <= i <= orig.len(),
                map_of(out@) == map_of(orig.take(i as int)).remove(name@),
                forall|j: int| 0 <= j < out@.len() ==> #[trigger] out@[j].0@ != name@,
                src.len() == out@.len(),
                forall|j: int|
                    0 <= j < out@.len() ==> 0 <= #[trigger] src[j] < i && out@[j]
                        == orig[src[j]],
                forall|j1: int, j2: int| 0 <= j1 < j2 < src.len() ==> src[j1] < src[j2],
            decreases orig.len() - i,
        {
            let e_key = entries[i].0.clone();
            let e_val = entries[i].1.clone();
            if !str_eq(e_key.as_str(), name) {
                let ghost old_out = out@;
                out.push((e_key, e_val));
                proof {
                    src = src.push(i as int);
                    assert(out@.drop_last() =~= old_out);
                    assert(out@.last() == orig[i as int]);
                    assert(map_of(out@) == map_of(old_out).insert(
                        orig[i as int].0@,
                        orig[i as int].1@,
                    ));
                    let t = orig.take(i + 1);
                    assert(t.drop_last() =~= orig.take(i as int));
                    assert(t.last() == orig[i as int]);
                    assert(map_of(t) == map_of(orig.take(i as int)).insert(
                        orig[i as int].0@,
                        orig[i as int].1@,
                    ));
                    assert(map_of(out@) =~= map_of(t).remove(name@));
                }
            } else {
                proof {
                    let t = orig.take(i + 1);
                    assert(t.drop_last() =~= orig.take(i as int));
                    assert(t.last() == orig[i as int]);
                    assert(map_of(out@) =~= map_of(t).remove(name@));
                }
            }
            i += 1;
        }
        proof {
            assert(orig.take(orig.len() as int) =~= orig);
            assert forall|j1: int, j2: int| 0 <= j1 < j2 < out@.len() implies out@[j1].0@
                != out@[j2].0@ by {
                assert(src[j1] < src[j2]);
                assert(out@[j1] == orig[src[j1]] && out@[j2] == orig[src[j2]]);
            }
        }
        out
    }

    /// The new entry list after setting `name` to `value`.
    fn with_set(entries: &Vec<(String, String)>, name: &str, value: &str) -> (out: Vec<
        (String, String),
    >)
        requires
            keys_distinct(entries@),
        ensures
            keys_distinct(out@),
            map_of(out@) == map_of(entries@).insert(name@, value@),
    {
        let mut out = Self::without_key(entries, name);
        let ghost mid = out@;
        out.push((name.to_owned(), value.to_owned()));
        proof {
            assert(out@.drop_last() =~= mid);
            assert(map_of(out@) =~= map_of(entries@).insert(name@, value@));
        }
        out
    }

    /// Every entry whose key starts with `prefix`, keys unique, values as the
    /// store holds them.
    fn entries_with_prefix(&self, prefix: &str) -> (out: Vec<(String, String)>)
        ensures
            forall|i: int, j: int| 0 <= i < j < out@.len() ==> out@[i].0@ != out@[j].0@,
            forall|i: int|
                0 <= i < out@.len() ==> starts_with_spec(#[trigger] out@[i].0@, prefix@)
                    && self.contents().contains_key(out@[i].0@) && out@[i].1@
                    == self.contents()[out@[i].0@],
            covers_prefix(self.contents(), out@, prefix@),
    {
        proof {
            use_type_invariant(self);
            lemma_map_of_props(self.entries@);
        }
        let ghost orig = self.entries@;
        let mut out: Vec<(String, String)> = Vec::new();
        let ghost mut src: Seq<int> = Seq::empty();
        let ghost mut pos: Map<int, int> = Map::empty();
        let mut i: usize = 0;
        while i < self.entries.len()
            invariant
                self.entries@ == orig,
                keys_distinct(orig),
                0 <= i <= orig.len(),
                src.len() == out@.len(),
                forall|j: int|
                    0 <= j < out@.len() ==> 0 <= #[trigger] src[j] < i && out@[j] == orig[src[j]]
                        && starts_with_spec(orig[src[j]].0@, prefix@),
                forall|j1: int, j2: int| 0 <= j1 < j2 < src.len() ==> src[j1] < src[j2],
                forall|l: int|
                    0 <= l < i && starts_with_spec(#[trigger] orig[l].0@, prefix@) ==> (
                    pos.contains_key(l) && 0 <= pos[l] < out@.len() && out@[pos[l]].0@
                        == orig[l].0@),
            decreases orig.len() - i,
        {
            let e_key = self.entries[i].0.clone();
            let e_val = self.entries[i].1.clone();
            if starts_with(e_key.as_str(), prefix) {
                let ghost old_out = out@;
                out.push((e_key, e_val));
                proof {
                    src = src.push(i as int);
                    pos = pos.insert(i as int, old_out.len() as int);
                    assert(out@[old_out.len() as int] == orig[i as int]);
                }
            }
            i += 1;
        }
        proof {
            lemma_map_of_props(orig);
            assert forall|j1: int, j2: int| 0 <= j1 < j2 < out@.len() implies out@[j1].0@
                != out@[j2].0@ by {
                assert(src[j1] < src[j2]);
                assert(out@[j1] == orig[src[j1]] && out@[j2] == orig[src[j2]]);
            }
            assert forall|j: int|
                0 <= j < out@.len() implies starts_with_spec(#[trigger] out@[j].0@, prefix@)
                && self.contents().contains_key(out@[j].0@) && out@[j].1@
                == self.contents()[out@[j].0@] by {
                let l = src[j];
                assert(out@[j] == orig[l]);
                assert(map_of(orig)[orig[l].0@] == orig[l].1@);
                assert(map_of(orig).contains_key(orig[l].0@));
            }
            assert forall|k: Seq<char>|
                self.contents().contains_key(k) && #[trigger] starts_with_spec(
                    k,
                    prefix@,
                ) implies exists|i: int| 0 <= i < out@.len() && (#[trigger] out@[i].0@) == k by {
                let l = choose|l: int| 0 <= l < orig.len() && orig[l].0@ == k;
                assert(pos.contains_key(l) && out@[pos[l]].0@ == orig[l].0@);
                assert(0 <= pos[l] < out@.len() && out@[pos[l]].0@ == k);
            }
            assert({
                &&& forall|i: int, j: int| 0 <= i < j < out@.len() ==> out@[i].0@ != out@[j].0@
                &&& forall|i: int|
                    0 <= i < out@.len() ==> starts_with_spec(#[trigger] out@[i].0@, prefix@)
                        && self.contents().contains_key(out@[i].0@) && out@[i].1@
                        == self.contents()[out@[i].0@]
                &&& forall|k: Seq<char>|
                    #[trigger] self.contents().contains_key(k) && starts_with_spec(k, prefix@)
                        ==> exists|i: int| 0 <= i < out@.len() && out@[i].0@ == k
            });
        }
        out
    }
}

impl Config for Store {
    closed spec fn contents(&self) -> Map<Seq<char>, Seq<char>> {
        map_of(self.entries@)
    }

    open spec fn infallible(&self) -> bool {
        true
    }

    fn get(&self, name: &str) -> (r: Result<String, Error>) {
        proof {
            use_type_invariant(self);
            lemma_map_of_props(self.entries@);
        }
        let mut i: usize = 0;
        while i < self.entries.len()
            invariant
                forall|j: int| 0 <= j < i ==> #[trigger] self.entries@[j].0@ != name@,
            decreases self.entries@.len() - i,
        {
            if str_eq(self.entries[i].0.as_str(), name) {
                proof {
                    use_type_invariant(self);
                    lemma_map_of_props(self.entries@);
                    assert(self.entries@[i as int].0@ == name@);
                    assert(map_of(self.entries@)[self.entries@[i as int].0@]
                        == self.entries@[i as int].1@);
                    assert(map_of(self.entries@).contains_key(name@));
                }
                return Ok(self.entries[i].1.clone());
            }
            i += 1;
        }
        proof {
            use_type_invariant(self);
            lemma_map_of_props(self.entries@);
            assert(!map_of(self.entries@).contains_key(name@));
        }
        Err(Error::KeyNotFound(name.to_owned()))
    }

    fn get_all(&self, prefix: &str) -> (r: Result<Vec<(String, String)>, Error>) {
        Ok(self.entries_with_prefix(prefix))
    }

    fn add(&mut self, name: &str, value: &str) -> (r: Result<(), Error>) {
        proof {
            use_type_invariant(&*self);
        }
        match self.get(name) {
            Ok(_) => Err(Error::Backend(name.to_owned())),
            Err(_) => {
                let ghost before = self.contents();
                self.entries = Self::with_set(&self.entries, name, value);
                proof {
                    assert(self.contents() == before.insert(name@, value@));
                }
                Ok(())
            },
        }
    }

    fn set(&mut self, name: &str, value: &str) -> (r: Result<(), Error>) {
        proof {
            use_type_invariant(&*self);
        }
        self.entries = Self::with_set(&self.entries, name, value);
        Ok(())
    }

    fn clear(&mut self, name: &str) -> (r: Result<(), Error>) {
        proof {
            use_type_invariant(&*self);
        }
        self.entries = Self::without_key(&self.entries, name);
        Ok(())
    }
}

} // verus!
