//! The slicer's registry of type, directive and macro definitions.
use vstd::prelude::*;
use crate::text::{byte_len, contains_brace, has_body, text_byte_len};

verus! {

/// A map from texts to texts, kept as a list of entries with distinct keys.
pub struct TextMap {
    entries: Vec<(String, String)>,
    map: Ghost<Map<Seq<char>, Seq<char>>>,
}

impl View for TextMap {
    type V = Map<Seq<char>, Seq<char>>;

    closed spec fn view(&self) -> Map<Seq<char>, Seq<char>> {
        self.map@
    }
}

impl TextMap {
    pub closed spec fn wf(&self) -> bool {
        &&& forall|i: int|
            0 <= i < self.entries.len() ==> #[trigger] self.map@.contains_key(self.entries@[i].0@)
                && self.map@[self.entries@[i].0@] == self.entries@[i].1@
        &&& forall|k: Seq<char>|
            #[trigger] self.map@.contains_key(k) ==> exists|i: int|
                0 <= i < self.entries.len() && self.entries@[i].0@ == k
        &&& forall|i: int, j: int|
            0 <= i < j < self.entries.len() ==> self.entries@[i].0@ != self.entries@[j].0@
    }

    pub fn new() -> (r: Self)
        ensures
            r.wf(),
            r@ == Map::<Seq<char>, Seq<char>>::empty(),
    {
        TextMap { entries: Vec::new(), map: Ghost(Map::empty()) }
    }

    /// Position of the entry with key `k`, if any.
    fn find(&self, k: &String) -> (r: Option<usize>)
        requires
            self.wf(),
        ensures
            r.is_none() <==> !self@.contains_key(k@),
            r matches Some(i) ==> i < self.entries.len() && self.entries@[i as int].0@ == k@,
    {
        let mut i: usize = 0;
        while i < self.entries.len()
            invariant
                self.wf(),
                i <= self.entries.len(),
                forall|j: int| 0 <= j < i ==> self.entries@[j].0@ != k@,
            decreases self.entries.len() - i,
        {
            if self.entries[i].0 == *k {
                return Some(i);
            }
            i = i + 1;
        }
        proof {
            if self@.contains_key(k@) {
                let j = choose|j: int| 0 <= j < self.entries.len() && self.entries@[j].0@ == k@;
                assert(false);
            }
        }
        None
    }

    pub fn len(&self) -> (r: usize)
        requires
            self.wf(),
        ensures
            r == self@.dom().len(),
    {
        proof {
            self.lemma_len();
        }
        self.entries.len()
    }

    proof fn lemma_len(&self)
        requires
            self.wf(),
        ensures
            self@.dom().len() == self.entries.len(),
            self@.dom().finite(),
    {
        let keys = self.entries@.map_values(|e: (String, String)| e.0@);
        assert forall|k: Seq<char>| self@.dom().contains(k) <==> keys.to_set().contains(k) by {
            if self@.dom().contains(k) {
                let i = choose|i: int| 0 <= i < self.entries.len() && self.entries@[i].0@ == k;
                assert(keys[i] == k);
            }
            if keys.contains(k) {
                let i = choose|i: int| 0 <= i < keys.len() && keys[i] == k;
                assert(self.map@.contains_key(self.entries@[i].0@));
            }
        }
        assert(self@.dom() =~= keys.to_set());
        assert forall|i: int, j: int| 0 <= i < j < keys.len() implies keys[i] != keys[j] by {}
        assert(keys.no_duplicates());
        keys.unique_seq_to_set();
    }

    pub fn get(&self, k: &String) -> (r: Option<&String>)
        requires
            self.wf(),
        ensures
            r.is_some() <==> self@.contains_key(k@),
            r matches Some(v) ==> v@ == self@[k@],
    {
        match self.find(k) {
            Some(i) => Some(&self.entries[i].1),
            None => None,
        }
    }

    pub fn contains_key(&self, k: &String) -> (r: bool)
        requires
            self.wf(),
        ensures
            r == self@.contains_key(k@),
    {
        self.find(k).is_some()
    }

    /// Sets the value of `k` to `v`, replacing any earlier one.
    pub fn insert(&mut self, k: String, v: String)
        requires
            old(self).wf(),
        ensures
            final(self).wf(),
            final(self)@ == old(self)@.insert(k@, v@),
    {
        match self.find(&k) {
            Some(i) => {
                let ghost kv = k@;
                self.entries.set(i, (k, v));
                self.map = Ghost(self.map@.insert(kv, v@));
                proof {
                    assert forall|j: int| 0 <= j < self.entries.len() implies #[trigger] self.map@.contains_key(self.entries@[j].0@)
                        && self.map@[self.entries@[j].0@] == self.entries@[j].1@ by {
                        if j != i {
                            assert(old(self).entries@[j].0@ != kv);
                        }
                    }
                    assert forall|kk: Seq<char>| #[trigger] self.map@.contains_key(kk) implies exists|j: int|
                        0 <= j < self.entries.len() && self.entries@[j].0@ == kk by {
                        if kk != kv {
                            assert(old(self).map@.contains_key(kk));
                            let j = choose|j: int| 0 <= j < old(self).entries.len() && old(self).entries@[j].0@ == kk;
                            assert(self.entries@[j].0@ == kk);
                        } else {
                            assert(self.entries@[i as int].0@ == kk);
                        }
                    }
                }
            },
            None => {
                let ghost kv = k@;
                let ghost vv = v@;
                self.entries.push((k, v));
                self.map = Ghost(self.map@.insert(kv, vv));
                proof {
                    let n = self.entries.len() - 1;
                    assert forall|j: int| 0 <= j < self.entries.len() implies #[trigger] self.map@.contains_key(self.entries@[j].0@)
                        && self.map@[self.entries@[j].0@] == self.entries@[j].1@ by {
                        if j != n {
                            assert(old(self).map@.contains_key(old(self).entries@[j].0@));
                        }
                    }
                    assert forall|kk: Seq<char>| #[trigger] self.map@.contains_key(kk) implies exists|j: int|
                        0 <= j < self.entries.len() && self.entries@[j].0@ == kk by {
                        if kk != kv {
                            assert(old(self).map@.contains_key(kk));
                            let j = choose|j: int| 0 <= j < old(self).entries.len() && old(self).entries@[j].0@ == kk;
                            assert(self.entries@[j].0@ == kk);
                        } else {
                            assert(self.entries@[n].0@ == kk);
                        }
                    }
                    assert forall|a: int, b: int| 0 <= a < b < self.entries.len() implies self.entries@[a].0@ != self.entries@[b].0@ by {
                        if b == n {
                            assert(old(self).map@.contains_key(old(self).entries@[a].0@));
                        }
                    }
                }
            },
        }
    }
}

/// Whether `new` should replace `old` as the definition of a type: a
/// definition with a body beats a forward declaration, and between two of the
/// same kind the longer text wins.
pub open spec fn prefers(new: Seq<char>, old: Seq<char>) -> bool {
    (has_body(new) && !has_body(old)) || (has_body(new) == has_body(old) && byte_len(new) > byte_len(old))
}

/// The type map after offering `def` as the definition of `name`.
pub open spec fn offer_type(types: Map<Seq<char>, Seq<char>>, name: Seq<char>, def: Seq<char>) -> Map<
    Seq<char>,
    Seq<char>,
> {
    if !types.contains_key(name) || prefers(def, types[name]) {
        types.insert(name, def)
    } else {
        types
    }
}

/// Global registry of the type and macro definitions found across all files.
pub struct TypeRegistry {
    types: TextMap,
    type_sources: TextMap,
    includes: Vec<(String, Vec<String>)>,
    macros: TextMap,
}

impl TypeRegistry {
    pub closed spec fn wf(&self) -> bool {
        &&& self.types.wf()
        &&& self.type_sources.wf()
        &&& self.macros.wf()
        &&& self.types@.dom() == self.type_sources@.dom()
        &&& forall|i: int, j: int|
            0 <= i < j < self.includes.len() ==> self.includes@[i].0@ != self.includes@[j].0@
    }

    /// Type name to its best known definition text.
    pub closed spec fn types_view(&self) -> Map<Seq<char>, Seq<char>> {
        self.types@
    }

    /// Type name to the file its chosen definition came from.
    pub closed spec fn sources_view(&self) -> Map<Seq<char>, Seq<char>> {
        self.type_sources@
    }

    /// Macro name to its first definition text.
    pub closed spec fn macros_view(&self) -> Map<Seq<char>, Seq<char>> {
        self.macros@
    }

    /// File to the header paths its directives name, in order.
    pub closed spec fn includes_view(&self) -> Map<Seq<char>, Seq<Seq<char>>> {
        Map::new(
            |f: Seq<char>| exists|i: int| 0 <= i < self.includes.len() && self.includes@[i].0@ == f,
            |f: Seq<char>|
                self.includes@[choose|i: int|
                    0 <= i < self.includes.len() && self.includes@[i].0@ == f].1.deep_view(),
        )
    }

    pub fn new() -> (r: Self)
        ensures
            r.wf(),
            r.types_view() == Map::<Seq<char>, Seq<char>>::empty(),
            r.sources_view() == Map::<Seq<char>, Seq<char>>::empty(),
            r.macros_view() == Map::<Seq<char>, Seq<char>>::empty(),
            r.includes_view() == Map::<Seq<char>, Seq<Seq<char>>>::empty(),
    {
        let r = TypeRegistry {
            types: TextMap::new(),
            type_sources: TextMap::new(),
            includes: Vec::new(),
            macros: TextMap::new(),
        };
        assert(r.includes_view() =~= Map::<Seq<char>, Seq<Seq<char>>>::empty());
        r
    }

    /// Offers `definition` as the definition of type `name`, found in `source_file`.
    pub fn register_type(&mut self, name: String, definition: String, source_file: String)
        requires
            old(self).wf(),
        ensures
            final(self).wf(),
            final(self).types_view() == offer_type(old(self).types_view(), name@, definition@),
            final(self).sources_view() == (if !old(self).types_view().contains_key(name@) || prefers(
                definition@,
                old(self).types_view()[name@],
            ) {
                old(self).sources_view().insert(name@, source_file@)
            } else {
                old(self).sources_view()
            }),
            final(self).macros_view() == old(self).macros_view(),
            final(self).includes_view() == old(self).includes_view(),
    {
        let should_insert = match self.types.get(&name) {
            None => true,
            Some(existing) => {
                let new_has_body = contains_brace(&definition);
                let old_has_body = contains_brace(existing);
                (new_has_body && !old_has_body) || (new_has_body == old_has_body
                    && text_byte_len(&definition) > text_byte_len(existing))
            },
        };
        if should_insert {
            let n2 = name.clone();
            self.types.insert(name, definition);
            self.type_sources.insert(n2, source_file);
        }
    }

    pub fn get_type(&self, name: &String) -> (r: Option<&String>)
        requires
            self.wf(),
        ensures
            r.is_some() <==> self.types_view().contains_key(name@),
            r matches Some(d) ==> d@ == self.types_view()[name@],
    {
        self.types.get(name)
    }

    /// Number of distinct type names registered.
    pub fn type_count(&self) -> (r: usize)
        requires
            self.wf(),
        ensures
            r == self.types_view().dom().len(),
    {
        self.types.len()
    }

    /// Number of distinct macro names registered.
    pub fn macro_count(&self) -> (r: usize)
        requires
            self.wf(),
        ensures
            r == self.macros_view().dom().len(),
    {
        self.macros.len()
    }

    /// Records `directive` as the next header path that `file` names.
    pub fn register_include(&mut self, file: String, directive: String)
        requires
            old(self).wf(),
        ensures
            final(self).wf(),
            final(self).includes_view() == old(self).includes_view().insert(
                file@,
                if old(self).includes_view().contains_key(file@) {
                    old(self).includes_view()[file@].push(directive@)
                } else {
                    seq![directive@]
                },
            ),
            final(self).types_view() == old(self).types_view(),
            final(self).sources_view() == old(self).sources_view(),
            final(self).macros_view() == old(self).macros_view(),
    {
        let mut i: usize = 0;
        while i < self.includes.len()
            invariant
                self == old(self),
                self.wf(),
                i <= self.includes.len(),
                forall|j: int| 0 <= j < i ==> self.includes@[j].0@ != file@,
            decreases self.includes.len() - i,
        {
            if self.includes[i].0 == file {
                let ghost fv = file@;
                let ghost old_list = self.includes@[i as int].1.deep_view();
                assert(old(self).includes_view()[fv] == old_list) by {
                    let c = choose|c: int| 0 <= c < self.includes.len() && self.includes@[c].0@ == fv;
                    assert(c == i);
                }
                let mut list = crate::text::clone_texts(&self.includes[i].1);
                list.push(directive);
                self.includes.set(i, (file, list));
                proof {
                    assert(self.includes@[i as int].1.deep_view() =~= old_list.push(directive@));
                    assert(self.includes_view() =~= old(self).includes_view().insert(fv, old_list.push(directive@))) by {
                        assert forall|f: Seq<char>| #[trigger] self.includes_view().contains_key(f) == old(self).includes_view().insert(fv, old_list.push(directive@)).contains_key(f) by {
                            if old(self).includes_view().contains_key(f) {
                                let c = choose|c: int| 0 <= c < old(self).includes.len() && old(self).includes@[c].0@ == f;
                                assert(self.includes@[c].0@ == f);
                            }
                            if self.includes_view().contains_key(f) {
                                let c = choose|c: int| 0 <= c < self.includes.len() && self.includes@[c].0@ == f;
                                assert(old(self).includes@[c].0@ == f);
                            }
                        }
                        assert forall|f: Seq<char>| #[trigger] self.includes_view().contains_key(f) implies self.includes_view()[f] == old(self).includes_view().insert(fv, old_list.push(directive@))[f] by {
                            let c = choose|c: int| 0 <= c < self.includes.len() && self.includes@[c].0@ == f;
                            let d = choose|d: int| 0 <= d < old(self).includes.len() && old(self).includes@[d].0@ == f;
                            assert(old(self).includes@[c].0@ == f);
                            assert(c == d);
                        }
                    }
                }
                return;
            }
            i = i + 1;
        }
        let ghost fv = file@;
        let ghost iv = directive@;
        let mut list: Vec<String> = Vec::new();
        list.push(directive);
        self.includes.push((file, list));
        proof {
            let n = self.includes.len() - 1;
            assert(!old(self).includes_view().contains_key(fv));
            assert(self.includes@[n].1.deep_view() =~= seq![iv]);
            assert forall|f: Seq<char>| #[trigger] self.includes_view().contains_key(f) == old(self).includes_view().insert(fv, seq![iv]).contains_key(f) by {
                if old(self).includes_view().contains_key(f) {
                    let c = choose|c: int| 0 <= c < old(self).includes.len() && old(self).includes@[c].0@ == f;
                    assert(self.includes@[c].0@ == f);
                }
                if f == fv {
                    assert(self.includes@[n].0@ == f);
                }
                if self.includes_view().contains_key(f) && f != fv {
                    let c = choose|c: int| 0 <= c < self.includes.len() && self.includes@[c].0@ == f;
                    assert(old(self).includes@[c].0@ == f);
                }
            }
            assert forall|f: Seq<char>| #[trigger] self.includes_view().contains_key(f) implies self.includes_view()[f] == old(self).includes_view().insert(fv, seq![iv])[f] by {
                let c = choose|c: int| 0 <= c < self.includes.len() && self.includes@[c].0@ == f;
                if f == fv {
                    assert(c == n);
                } else {
                    let d = choose|d: int| 0 <= d < old(self).includes.len() && old(self).includes@[d].0@ == f;
                    assert(self.includes@[d].0@ == f);
                    assert(c == d);
                }
            }
            assert(self.includes_view() =~= old(self).includes_view().insert(fv, seq![iv]));
        }
    }

    /// Records `definition` for macro `name` unless the name already has one.
    pub fn register_macro(&mut self, name: String, definition: String)
        requires
            old(self).wf(),
        ensures
            final(self).wf(),
            final(self).macros_view() == (if old(self).macros_view().contains_key(name@) {
                old(self).macros_view()
            } else {
                old(self).macros_view().insert(name@, definition@)
            }),
            final(self).types_view() == old(self).types_view(),
            final(self).sources_view() == old(self).sources_view(),
            final(self).includes_view() == old(self).includes_view(),
    {
        if !self.macros.contains_key(&name) {
            self.macros.insert(name, definition);
        }
    }

    pub fn get_macro(&self, name: &String) -> (r: Option<&String>)
        requires
            self.wf(),
        ensures
            r.is_some() <==> self.macros_view().contains_key(name@),
            r matches Some(d) ==> d@ == self.macros_view()[name@],
    {
        self.macros.get(name)
    }
}

} // verus!
