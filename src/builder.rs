//! Building a component in memory: strings and canonical names are interned
//! once each, in insertion order, and the builder then hands over a component.
use vstd::prelude::*;
use vstd::utf8::{encode_utf8, encode_utf8_decode_utf8};

use crate::component::{Component, Library, NonNullableMode, SourceInfo};
use crate::expr::Constant;
use crate::prim::{
    CanonicalName, CanonicalNameRef, ComponentRef, ConstantRef, CowRcStr, StrRef, StringRef, Uint,
    UriRef,
};

verus! {

/// A value that an `IndexMap` tells apart by its key.
pub trait Keyed: Sized {
    type K;

    spec fn key(&self) -> Self::K;

    fn same_key(&self, other: &Self) -> (r: bool)
        ensures
            r == (self.key() == other.key()),
    ;

    fn duplicate(&self) -> (r: Self)
        ensures
            r.key() == self.key(),
    ;
}

/// Whether two strings hold the same characters.
pub fn str_eq(a: &str, b: &str) -> (r: bool)
    ensures
        r == (a@ == b@),
{
    let x = a.as_bytes();
    let y = b.as_bytes();
    proof {
        encode_utf8_decode_utf8(a@);
        encode_utf8_decode_utf8(b@);
        assert(x@ == encode_utf8(a@));
        assert(y@ == encode_utf8(b@));
    }
    if x.len() != y.len() {
        return false;
    }
    let mut i: usize = 0;
    while i < x.len()
        invariant
            i <= x.len(),
            x@.len() == y@.len(),
            x@ == encode_utf8(a@),
            y@ == encode_utf8(b@),
            forall|j: int| 0 <= j < i ==> x@[j] == y@[j],
        decreases x.len() - i,
    {
        if x[i] != y[i] {
            assert(x@[i as int] != y@[i as int]);
            return false;
        }
        i = i + 1;
    }
    assert(x@ =~= y@);
    true
}

impl Keyed for CowRcStr<'static> {
    type K = Seq<char>;

    open spec fn key(&self) -> Seq<char> {
        self@
    }

    fn same_key(&self, other: &Self) -> (r: bool) {
        str_eq(self.as_str(), other.as_str())
    }

    fn duplicate(&self) -> (r: Self) {
        self.to_owned()
    }
}

impl Keyed for CanonicalName {
    type K = (u32, u32);

    open spec fn key(&self) -> (u32, u32) {
        (self.parent.index.0, self.name.index.0)
    }

    fn same_key(&self, other: &Self) -> (r: bool) {
        self.parent.index.0 == other.parent.index.0 && self.name.index.0 == other.name.index.0
    }

    fn duplicate(&self) -> (r: Self) {
        *self
    }
}

/// Values in insertion order, each key at most once.
#[derive(Debug)]
pub struct IndexMap<A> {
    values: Vec<A>,
}

impl<A: Keyed> IndexMap<A> {
    /// The keys of the values, in insertion order.
    pub closed spec fn keys(&self) -> Seq<A::K> {
        Seq::new(self.values@.len(), |i: int| self.values@[i].key())
    }

    /// No key occurs twice.
    pub open spec fn wf(&self) -> bool {
        forall|i: int, j: int|
            0 <= i < j < self.keys().len() ==> self.keys()[i] != self.keys()[j]
    }

    pub fn new() -> (r: Self)
        ensures
            r.wf(),
            r.keys().len() == 0,
    {
        let r = IndexMap { values: Vec::new() };
        assert(r.keys() =~= Seq::<A::K>::empty());
        r
    }

    /// The position of `item`'s key, adding `item` at the end when the key is new.
    pub fn add(&mut self, item: A) -> (r: usize)
        requires
            old(self).wf(),
        ensures
            final(self).wf(),
            old(self).keys().contains(item.key()) ==> final(self).keys() == old(self).keys(),
            !old(self).keys().contains(item.key()) ==> final(self).keys() == old(self).keys().push(
                item.key(),
            ) && r == old(self).keys().len(),
            r < final(self).keys().len(),
            final(self).keys()[r as int] == item.key(),
    {
        let mut i: usize = 0;
        while i < self.values.len()
            invariant
                i <= self.values@.len(),
                old(self).wf(),
                *self == *old(self),
                forall|j: int| 0 <= j < i ==> self.keys()[j] != item.key(),
            decreases self.values.len() - i,
        {
            if self.values[i].same_key(&item) {
                assert(old(self).keys()[i as int] == item.key());
                assert(self.wf()) by {
                    assert(self.keys() =~= old(self).keys());
                }
                return i;
            }
            i = i + 1;
        }
        assert(!old(self).keys().contains(item.key())) by {
            if old(self).keys().contains(item.key()) {
                let k = choose|k: int| 0 <= k < old(self).keys().len() && old(self).keys()[k] == item.key();
                assert(self.keys()[k] != item.key());
            }
        }
        let n = self.values.len();
        self.values.push(item);
        assert(self.keys() =~= old(self).keys().push(item.key()));
        n
    }

    /// The value at position `i`.
    pub fn get(&self, i: usize) -> (r: &A)
        requires
            i < self.keys().len(),
        ensures
            r.key() == self.keys()[i as int],
    {
        &self.values[i]
    }

    /// The number of values.
    pub fn len(&self) -> (r: usize)
        ensures
            r == self.keys().len(),
    {
        self.values.len()
    }

    /// The values, in insertion order.
    pub fn into_vec(self) -> (r: Vec<A>)
        ensures
            r@.len() == self.keys().len(),
            forall|i: int| 0 <= i < r@.len() ==> #[trigger] r@[i].key() == self.keys()[i],
    {
        self.values
    }
}

/// `r` is the canonical name of the path `parts` in the given tables: 0 for an
/// empty path, otherwise an entry whose name is the last part's string and
/// whose parent is the canonical name of the rest of the path.
pub open spec fn names_path(
    names: Seq<(u32, u32)>,
    strings: Seq<Seq<char>>,
    r: u32,
    parts: Seq<Seq<char>>,
) -> bool
    decreases parts.len(),
{
    if parts.len() == 0 {
        r == 0
    } else {
        &&& 1 <= r <= names.len()
        &&& (names[r - 1].1 as int) < strings.len()
        &&& strings[names[r - 1].1 as int] == parts.last()
        &&& names_path(names, strings, names[r - 1].0, parts.drop_last())
    }
}

/// A path keeps its canonical name when the tables only grow at their ends.
pub proof fn lemma_names_path_extend(
    names: Seq<(u32, u32)>,
    strings: Seq<Seq<char>>,
    names2: Seq<(u32, u32)>,
    strings2: Seq<Seq<char>>,
    r: u32,
    parts: Seq<Seq<char>>,
)
    requires
        names_path(names, strings, r, parts),
        names.len() <= names2.len(),
        strings.len() <= strings2.len(),
        forall|i: int| 0 <= i < names.len() ==> names2[i] == names[i],
        forall|i: int| 0 <= i < strings.len() ==> strings2[i] == strings[i],
    ensures
        names_path(names2, strings2, r, parts),
    decreases parts.len(),
{
    if parts.len() > 0 {
        lemma_names_path_extend(names, strings, names2, strings2, names[r - 1].0, parts.drop_last());
    }
}

/// Accumulates the parts of a component, interning strings and canonical names.
#[derive(Debug)]
pub struct ComponentBuilder {
    libraries: Vec<Library>,
    sources: Vec<SourceInfo>,
    constants: Vec<Constant>,
    canonical_names: IndexMap<CanonicalName>,
    strings: IndexMap<StrRef>,
}

impl ComponentBuilder {
    /// The interned strings, in order.
    pub closed spec fn strings(&self) -> Seq<Seq<char>> {
        self.strings.keys()
    }

    /// The interned canonical names as (parent, name) wire values, in order.
    pub closed spec fn names(&self) -> Seq<(u32, u32)> {
        self.canonical_names.keys()
    }

    pub closed spec fn source_count(&self) -> nat {
        self.sources@.len()
    }

    pub closed spec fn constant_count(&self) -> nat {
        self.constants@.len()
    }

    pub closed spec fn library_count(&self) -> nat {
        self.libraries@.len()
    }

    /// Both tables hold each value once, the empty string comes first, and the
    /// canonical names form a tree in order: each parent is 0 ("none") or the
    /// wire value of an earlier entry.
    pub closed spec fn wf(&self) -> bool {
        &&& self.strings.wf()
        &&& self.canonical_names.wf()
        &&& self.strings().len() >= 1
        &&& self.strings()[0] == Seq::<char>::empty()
        &&& forall|i: int| 0 <= i < self.names().len() ==> #[trigger] self.names()[i].0 <= i
    }

    /// In a builder's canonical-name table, each parent is undefined (0) or
    /// refers to an earlier entry: entry `i` has a parent below `i + 1`.
    pub proof fn lemma_names_point_earlier(&self)
        requires
            self.wf(),
        ensures
            forall|i: int| 0 <= i < self.names().len() ==> #[trigger] self.names()[i].0 < i + 1,
            self.strings().len() >= 1 && self.strings()[0] == Seq::<char>::empty(),
    {
    }

    /// Each string and each canonical name is interned once, so an index that
    /// holds a value is that value's only index.
    pub proof fn lemma_values_are_unique(&self)
        requires
            self.wf(),
        ensures
            forall|i: int, j: int|
                0 <= i < j < self.strings().len() ==> self.strings()[i] != self.strings()[j],
            forall|i: int, j: int|
                0 <= i < j < self.names().len() ==> self.names()[i] != self.names()[j],
    {
    }

    /// The libraries added so far, in order.
    pub closed spec fn libraries(&self) -> Seq<Library> {
        self.libraries@
    }

    /// The sources added so far, in order.
    pub closed spec fn sources(&self) -> Seq<SourceInfo> {
        self.sources@
    }

    /// The constants added so far, in order.
    pub closed spec fn constants(&self) -> Seq<Constant> {
        self.constants@
    }

    /// Interns `name`; the reference is the position of its first occurrence.
    pub fn add_string(&mut self, name: StrRef) -> (r: StringRef)
        requires
            old(self).wf(),
            old(self).strings().len() < u32::MAX,
        ensures
            final(self).wf(),
            final(self).names() == old(self).names(),
            r.index.0 < final(self).strings().len(),
            final(self).strings()[r.index.0 as int] == name@,
            old(self).strings().contains(name@) ==> final(self).strings() == old(self).strings(),
            !old(self).strings().contains(name@) ==> final(self).strings() == old(self).strings().push(
                name@,
            ),
            final(self).source_count() == old(self).source_count(),
            final(self).constant_count() == old(self).constant_count(),
            final(self).library_count() == old(self).library_count(),
            final(self).libraries() == old(self).libraries(),
            final(self).sources() == old(self).sources(),
            final(self).constants() == old(self).constants(),
    {
        let ghost key = name@;
        let idx = self.strings.add(name);
        assert(self.names() == old(self).names());
        assert(self.strings().len() >= 1);
        assert(self.strings()[0] == Seq::<char>::empty()) by {
            assert(old(self).strings()[0] == self.strings()[0]);
        }
        ComponentRef::new(Uint(idx as u32))
    }

    /// Interns the canonical name `name` under `parent`; the reference is the
    /// entry's position plus one.
    pub fn add_name(&mut self, name: StringRef, parent: CanonicalNameRef) -> (r: CanonicalNameRef)
        requires
            old(self).wf(),
            parent.index.0 <= old(self).names().len(),
            old(self).names().len() + 1 < u32::MAX,
        ensures
            final(self).wf(),
            final(self).strings() == old(self).strings(),
            1 <= r.index.0 <= final(self).names().len(),
            final(self).names()[r.index.0 - 1] == (parent.index.0, name.index.0),
            old(self).names().contains((parent.index.0, name.index.0)) ==> final(self).names()
                == old(self).names(),
            !old(self).names().contains((parent.index.0, name.index.0)) ==> final(self).names()
                == old(self).names().push((parent.index.0, name.index.0)),
            final(self).source_count() == old(self).source_count(),
            final(self).constant_count() == old(self).constant_count(),
            final(self).library_count() == old(self).library_count(),
            final(self).libraries() == old(self).libraries(),
            final(self).sources() == old(self).sources(),
            final(self).constants() == old(self).constants(),
    {
        let canonical_name = CanonicalName { name, parent };
        let idx = self.canonical_names.add(canonical_name);
        assert forall|i: int| 0 <= i < self.names().len() implies #[trigger] self.names()[i].0 <= i by {
            if i < old(self).names().len() {
                assert(self.names()[i] == old(self).names()[i]);
            }
        }
        ComponentRef::new(Uint((idx + 1) as u32))
    }

    /// Adds a source; the reference is its position.
    pub fn add_source(&mut self, source: SourceInfo) -> (r: UriRef)
        requires
            old(self).source_count() < u32::MAX,
        ensures
            r.index.0 == old(self).source_count(),
            final(self).source_count() == old(self).source_count() + 1,
            final(self).sources() == old(self).sources().push(source),
            final(self).strings() == old(self).strings(),
            final(self).names() == old(self).names(),
            old(self).wf() ==> final(self).wf(),
    {
        let idx = self.sources.len() as u32;
        self.sources.push(source);
        assert(self.strings() == old(self).strings());
        assert(self.names() == old(self).names());
        ComponentRef::new(Uint(idx))
    }

    /// Adds a constant; the reference is its position.
    pub fn add_constant(&mut self, constant: Constant) -> (r: ConstantRef)
        requires
            old(self).constant_count() < u32::MAX,
        ensures
            r.index.0 == old(self).constant_count(),
            final(self).constant_count() == old(self).constant_count() + 1,
            final(self).constants() == old(self).constants().push(constant),
            final(self).strings() == old(self).strings(),
            final(self).names() == old(self).names(),
            old(self).wf() ==> final(self).wf(),
    {
        let idx = self.constants.len() as u32;
        self.constants.push(constant);
        assert(self.strings() == old(self).strings());
        assert(self.names() == old(self).names());
        ComponentRef::new(Uint(idx))
    }

    /// Interns the path `parts`: each part's string, then a name for it under
    /// the previous part's name, the first under none. An empty path gives 0.
    pub fn add_name_from(&mut self, parts: Vec<StrRef>) -> (r: CanonicalNameRef)
        requires
            old(self).wf(),
            old(self).strings().len() + parts@.len() < u32::MAX,
            old(self).names().len() + parts@.len() + 1 < u32::MAX,
        ensures
            final(self).wf(),
            names_path(
                final(self).names(),
                final(self).strings(),
                r.index.0,
                Seq::new(parts@.len(), |k: int| parts@[k]@),
            ),
            final(self).libraries() == old(self).libraries(),
            final(self).sources() == old(self).sources(),
            final(self).constants() == old(self).constants(),
    {
        let ghost chars = Seq::new(parts@.len(), |k: int| parts@[k]@);
        let mut parent: CanonicalNameRef = ComponentRef::undefined();
        let mut i: usize = 0;
        while i < parts.len()
            invariant
                i <= parts@.len(),
                self.wf(),
                self.strings().len() <= old(self).strings().len() + i,
                self.names().len() <= old(self).names().len() + i,
                old(self).strings().len() + parts@.len() < u32::MAX,
                old(self).names().len() + parts@.len() + 1 < u32::MAX,
                parent.index.0 <= self.names().len(),
                chars == Seq::new(parts@.len(), |k: int| parts@[k]@),
                names_path(self.names(), self.strings(), parent.index.0, chars.subrange(0, i as int)),
                self.libraries() == old(self).libraries(),
                self.sources() == old(self).sources(),
                self.constants() == old(self).constants(),
            decreases parts@.len() - i,
        {
            let part = parts[i].to_owned();
            let ghost names0 = self.names();
            let ghost strings0 = self.strings();
            let ghost prefix = chars.subrange(0, i as int);
            let s = self.add_string(part);
            let ghost strings1 = self.strings();
            let ghost p0 = parent.index.0;
            parent = self.add_name(s, parent);
            proof {
                assert forall|k: int| 0 <= k < strings0.len() implies strings1[k] == strings0[k] by {}
                assert forall|k: int| 0 <= k < names0.len() implies self.names()[k] == names0[k] by {}
                lemma_names_path_extend(names0, strings0, self.names(), self.strings(), p0, prefix);
                let t = chars.subrange(0, i + 1);
                assert(t.drop_last() =~= prefix);
                assert(t.last() == parts@[i as int]@);
            }
            i = i + 1;
        }
        assert(chars.subrange(0, i as int) =~= chars);
        parent
    }

    /// Adds a library.
    pub fn add_library(&mut self, library: Library)
        ensures
            final(self).library_count() == old(self).library_count() + 1,
            final(self).libraries() == old(self).libraries().push(library),
            final(self).strings() == old(self).strings(),
            final(self).names() == old(self).names(),
            old(self).wf() ==> final(self).wf(),
    {
        self.libraries.push(library);
        assert(self.strings() == old(self).strings());
        assert(self.names() == old(self).names());
    }

    /// The canonical-name entry that `name` refers to.
    pub fn get_canonical_name(&self, name: CanonicalNameRef) -> (r: CanonicalName)
        requires
            1 <= name.index.0 <= self.names().len(),
        ensures
            (r.parent.index.0, r.name.index.0) == self.names()[name.index.0 - 1],
    {
        let u: u32 = name.index.0;
        *self.canonical_names.get((u - 1) as usize)
    }

    /// The string that `name` refers to.
    pub fn get_str(&self, name: StringRef) -> (r: StrRef)
        requires
            name.index.0 < self.strings().len(),
        ensures
            r@ == self.strings()[name.index.0 as int],
    {
        self.strings.get(name.index.0 as usize).duplicate()
    }

    /// The component of everything added, with the given main method and mode.
    pub fn into_component(self, main_method: CanonicalNameRef, non_nullable_mode: NonNullableMode) -> (r:
        Component)
        ensures
            r.problems@.len() == 0,
            r.payloads@.len() == 0,
            r.libraries@ == self.libraries(),
            r.source_map@ == self.sources(),
            r.constants@ == self.constants(),
            r.strings@.len() == self.strings().len(),
            forall|i: int| 0 <= i < r.strings@.len() ==> #[trigger] r.strings@[i]@ == self.strings()[i],
            r.canonical_names@.len() == self.names().len(),
            forall|i: int|
                0 <= i < r.canonical_names@.len() ==> (
                #[trigger] r.canonical_names@[i].parent.index.0,
                r.canonical_names@[i].name.index.0,
            ) == self.names()[i],
            r.main_method == main_method,
            r.non_nullable_mode == non_nullable_mode,
    {
        let ghost names = self.names();
        let ghost strings = self.strings();
        let canonical_names = self.canonical_names.into_vec();
        let strings_vec = self.strings.into_vec();
        let r = Component {
            problems: Vec::new(),
            libraries: self.libraries,
            source_map: self.sources,
            constants: self.constants,
            canonical_names,
            payloads: Vec::new(),
            strings: strings_vec,
            main_method,
            non_nullable_mode,
        };
        assert forall|i: int| 0 <= i < r.strings@.len() implies #[trigger] r.strings@[i]@ == strings[i] by {
            assert(r.strings@[i].key() == strings[i]);
        }
        assert forall|i: int| 0 <= i < r.canonical_names@.len() implies (
            #[trigger] r.canonical_names@[i].parent.index.0,
            r.canonical_names@[i].name.index.0,
        ) == names[i] by {
            assert(r.canonical_names@[i].key() == names[i]);
        }
        r
    }
}

impl Default for ComponentBuilder {
    /// A builder whose string table holds the empty string, at index 0.
    fn default() -> (r: Self)
        ensures
            r.wf(),
            r.strings() == seq![Seq::<char>::empty()],
            r.names().len() == 0,
            r.source_count() == 0,
            r.constant_count() == 0,
            r.library_count() == 0,
    {
        let mut strings: IndexMap<StrRef> = IndexMap::new();
        let empty: StrRef = CowRcStr::Borrowed("");
        proof {
            reveal_strlit("");
            assert(empty@ =~= Seq::<char>::empty());
        }
        strings.add(empty);
        let r = ComponentBuilder {
            libraries: Vec::new(),
            sources: Vec::new(),
            constants: Vec::new(),
            canonical_names: IndexMap::new(),
            strings,
        };
        assert(r.strings() =~= seq![Seq::<char>::empty()]);
        r
    }
}

} // verus!
