//! A model of the host runtime's object graph.
//!
//! The host keeps dynamically tagged, reference-counted objects on its heap.
//! This module models that heap as an explicit object table: a handle is an
//! index into the table, every object carries its payload as plain data, and
//! the reference counts and sequence cells are the only mutable state. The
//! routines the value layer consumes from the host — the classifier, the
//! stringify routine, the mapping lookup, and the sequence protocol — are
//! implemented and verified against this model.

use vstd::prelude::*;

verus! {

use crate::decimal::dec_str;

/// The closed set of type tags a host object can carry. Shapes outside the
/// set map to `Other` rather than to an error.
#[derive(Clone, Copy, PartialEq, Eq, Structural, Debug)]
pub enum ObjectType {
    NoneType,
    Bool,
    Int,
    Float,
    Str,
    List,
    Dict,
    Other,
}

/// An error returned when the host fails to produce a textual
/// representation of an object.
#[derive(Clone, Copy, PartialEq, Eq, Structural, Debug)]
pub struct ConversionError;

/// One object on the host heap, its payload held as plain data.
///
/// A floating-point payload is kept as its raw bit pattern together with
/// the rendering the host computed for it; this layer never interprets the
/// bits. A `List` owns the contiguous range of `len` cells starting at
/// `start` in the host's cell store. An `Other` object carries the outcome
/// of its own display hook: absent when the hook fails.
pub enum HostObject {
    NoneType,
    Bool(bool),
    Int(i64),
    Float(u64, String),
    Str(String),
    List { start: usize, len: usize },
    Dict(Vec<(usize, usize)>),
    Other(Option<String>),
}

/// The type tag of one object.
pub open spec fn tag_of_obj(o: HostObject) -> ObjectType {
    match o {
        HostObject::NoneType => ObjectType::NoneType,
        HostObject::Bool(_) => ObjectType::Bool,
        HostObject::Int(_) => ObjectType::Int,
        HostObject::Float(_, _) => ObjectType::Float,
        HostObject::Str(_) => ObjectType::Str,
        HostObject::List { .. } => ObjectType::List,
        HostObject::Dict(_) => ObjectType::Dict,
        HostObject::Other(_) => ObjectType::Other,
    }
}

/// Whether two scalar payloads are identified by the host's key equality:
/// equal nothings, booleans, integers, or text, and a boolean with the
/// integer it converts to (the host treats its booleans as the integers
/// zero and one). Numeric identification between integers and
/// floating-point keys is not modelled — float payloads are opaque bit
/// patterns here — so such keys are identified only as the same object.
pub open spec fn scalar_eq(x: HostObject, y: HostObject) -> bool {
    match (x, y) {
        (HostObject::NoneType, HostObject::NoneType) => true,
        (HostObject::Bool(p), HostObject::Bool(q)) => p == q,
        (HostObject::Int(p), HostObject::Int(q)) => p == q,
        (HostObject::Str(p), HostObject::Str(q)) => p@ == q@,
        (HostObject::Bool(p), HostObject::Int(q)) => q == (if p {
            1i64
        } else {
            0i64
        }),
        (HostObject::Int(p), HostObject::Bool(q)) => p == (if q {
            1i64
        } else {
            0i64
        }),
        _ => false,
    }
}

/// The end of a sequence object's cell range; zero for any other object.
pub open spec fn list_end(o: HostObject) -> int {
    match o {
        HostObject::List { start, len } => start + len,
        _ => 0,
    }
}

/// Whether the cell ranges of two objects cannot overlap.
pub open spec fn ranges_disjoint(x: HostObject, y: HostObject) -> bool {
    match (x, y) {
        (HostObject::List { start: s1, len: l1 }, HostObject::List { start: s2, len: l2 }) => {
            s1 + l1 <= s2 || s2 + l2 <= s1
        },
        _ => true,
    }
}

/// The model of the host heap: an object table with reference counts and a
/// shared store for sequence cells.
///
/// A handle is an index into the object table. Objects are immutable once
/// allocated; all mutation goes through the sequence cells and the
/// reference counts.
pub struct Host {
    /// The object table; a handle is an index into it.
    pub objects: Vec<HostObject>,
    /// Reference counts, parallel to `objects`.
    pub rcs: Vec<u64>,
    /// Sequence storage: each `List` object owns a contiguous range of
    /// cells. An empty cell is a slot that was never populated.
    pub cells: Vec<Option<usize>>,
}

impl Host {
    /// A handle is live when it indexes the object table.
    pub open spec fn valid(self, h: usize) -> bool {
        (h as int) < self.objects@.len()
    }

    /// The object a live handle refers to.
    pub open spec fn obj_of(self, h: usize) -> HostObject {
        self.objects@[h as int]
    }

    /// What the classifier answers for `h`.
    pub open spec fn tag_of(self, h: usize) -> ObjectType {
        tag_of_obj(self.obj_of(h))
    }

    /// The reference count of `h`.
    pub open spec fn rc_of(self, h: usize) -> int {
        self.rcs@[h as int] as int
    }

    /// The boolean payload of a `Bool` object.
    pub open spec fn bool_val(self, h: usize) -> bool {
        match self.obj_of(h) {
            HostObject::Bool(b) => b,
            _ => arbitrary(),
        }
    }

    /// The integer payload of an `Int` object.
    pub open spec fn int_val(self, h: usize) -> i64 {
        match self.obj_of(h) {
            HostObject::Int(i) => i,
            _ => arbitrary(),
        }
    }

    /// The raw bit pattern of a `Float` object.
    pub open spec fn float_bits(self, h: usize) -> u64 {
        match self.obj_of(h) {
            HostObject::Float(bits, _) => bits,
            _ => arbitrary(),
        }
    }

    /// The text payload of a `Str` object.
    pub open spec fn str_val(self, h: usize) -> Seq<char> {
        match self.obj_of(h) {
            HostObject::Str(s) => s@,
            _ => arbitrary(),
        }
    }

    /// Where the cell range of a `List` object starts.
    pub open spec fn list_start(self, h: usize) -> int {
        match self.obj_of(h) {
            HostObject::List { start, .. } => start as int,
            _ => arbitrary(),
        }
    }

    /// The length of a `List` object.
    pub open spec fn list_len(self, h: usize) -> int {
        match self.obj_of(h) {
            HostObject::List { len, .. } => len as int,
            _ => arbitrary(),
        }
    }

    /// The cell backing slot `i` of the sequence object `h`.
    pub open spec fn list_cell(self, h: usize, i: int) -> Option<usize> {
        self.cells@[self.list_start(h) + i]
    }

    /// The entries of a `Dict` object, in insertion order.
    pub open spec fn dict_entries(self, h: usize) -> Seq<(usize, usize)> {
        match self.obj_of(h) {
            HostObject::Dict(es) => es@,
            _ => arbitrary(),
        }
    }

    /// Whether the host identifies the keys `a` and `b`: the same object,
    /// or scalar payloads that compare equal.
    pub open spec fn key_eq(self, a: usize, b: usize) -> bool {
        a == b || scalar_eq(self.obj_of(a), self.obj_of(b))
    }

    /// Whether the host can hash `h`; containers are unhashable, and
    /// looking one up in a mapping fails.
    pub open spec fn hashable(self, h: usize) -> bool {
        self.tag_of(h) != ObjectType::List && self.tag_of(h) != ObjectType::Dict
    }

    /// Well-formed mapping entries: live, hashable, pairwise distinct keys
    /// and live values.
    pub open spec fn dict_entries_wf(self, es: Seq<(usize, usize)>) -> bool {
        &&& forall|k: int|
            0 <= k < es.len() ==> self.valid((#[trigger] es[k]).0) && self.valid(es[k].1)
                && self.hashable(es[k].0)
        &&& forall|k1: int, k2: int|
            0 <= k1 < es.len() && 0 <= k2 < es.len() && k1 != k2 ==> !self.key_eq(
                (#[trigger] es[k1]).0,
                (#[trigger] es[k2]).0,
            )
    }

    /// Payload constraints on one object: a sequence's cell range lies
    /// inside the cell store and its length fits a signed count; mapping
    /// entries are well formed.
    pub open spec fn obj_wf(self, o: HostObject) -> bool {
        match o {
            HostObject::List { start, len } => {
                &&& start + len <= self.cells@.len()
                &&& len <= (isize::MAX as usize)
            },
            HostObject::Dict(es) => self.dict_entries_wf(es@),
            _ => true,
        }
    }

    /// Distinct sequence objects own disjoint cell ranges.
    pub open spec fn lists_disjoint(self) -> bool {
        forall|i: int, j: int|
            0 <= i < self.objects@.len() && 0 <= j < self.objects@.len() && i != j
                ==> ranges_disjoint(#[trigger] self.objects@[i], #[trigger] self.objects@[j])
    }

    /// The global invariant of the host model.
    pub open spec fn wf(self) -> bool {
        &&& self.rcs@.len() == self.objects@.len()
        &&& forall|i: int| 0 <= i < self.objects@.len() ==> self.obj_wf(#[trigger] self.objects@[i])
        &&& self.lists_disjoint()
        &&& forall|c: int|
            0 <= c < self.cells@.len() ==> ((#[trigger] self.cells@[c]) matches Some(v)
                ==> (v as int) < self.objects@.len())
    }

    /// A fresh, empty host heap.
    pub fn new() -> (host: Host)
        ensures
            host.wf(),
            host.objects@.len() == 0,
            host.cells@.len() == 0,
    {
        Host { objects: Vec::new(), rcs: Vec::new(), cells: Vec::new() }
    }

    /// How many objects the host has allocated so far.
    pub fn object_count(&self) -> (n: usize)
        ensures
            n == self.objects@.len(),
    {
        self.objects.len()
    }

    /// The classifier: maps a live handle to its type tag. It is total
    /// over live handles and never fails; unrecognized shapes carry the
    /// `Other` tag.
    pub fn classify(&self, handle: usize) -> (t: ObjectType)
        requires
            self.valid(handle),
        ensures
            t == self.tag_of(handle),
    {
        match &self.objects[handle] {
            HostObject::NoneType => ObjectType::NoneType,
            HostObject::Bool(_) => ObjectType::Bool,
            HostObject::Int(_) => ObjectType::Int,
            HostObject::Float(_, _) => ObjectType::Float,
            HostObject::Str(_) => ObjectType::Str,
            HostObject::List { .. } => ObjectType::List,
            HostObject::Dict(_) => ObjectType::Dict,
            HostObject::Other(_) => ObjectType::Other,
        }
    }

    /// The reference count of a live handle. Observing it changes nothing.
    pub fn ref_count(&self, handle: usize) -> (n: u64)
        requires
            self.wf(),
            self.valid(handle),
        ensures
            n as int == self.rc_of(handle),
    {
        self.rcs[handle]
    }

    /// Conditions under which `o` may enter the table as a fresh object:
    /// its payload is well formed and, for a sequence, its cell range lies
    /// beyond every existing one.
    pub open spec fn can_push(self, o: HostObject) -> bool {
        &&& self.obj_wf(o)
        &&& (o matches HostObject::List { start, .. } ==> forall|i: int|
            0 <= i < self.objects@.len() ==> list_end(#[trigger] self.objects@[i]) <= start)
    }

    /// What every allocation guarantees: the table grew by `o` under the
    /// fresh handle `h`, which holds one reference; nothing else moved.
    pub open spec fn alloc_post(self, pre: Host, o: HostObject, h: usize) -> bool {
        &&& self.wf()
        &&& h as int == pre.objects@.len()
        &&& self.objects@ == pre.objects@.push(o)
        &&& self.rcs@ == pre.rcs@.push(1u64)
        &&& self.cells@ == pre.cells@
    }

    /// Pushes a fresh object with one reference.
    fn alloc_obj(&mut self, o: HostObject) -> (h: usize)
        requires
            old(self).wf(),
            old(self).can_push(o),
        ensures
            final(self).alloc_post(*old(self), o, h),
    {
        let h = self.objects.len();
        self.objects.push(o);
        self.rcs.push(1);
        proof {
            let pre = *old(self);
            assert forall|i: int| 0 <= i < self.objects@.len() implies self.obj_wf(
                #[trigger] self.objects@[i],
            ) by {
                if i < pre.objects@.len() {
                    assert(self.objects@[i] == pre.objects@[i]);
                    assert(pre.obj_wf(pre.objects@[i]));
                }
            }
            assert forall|i: int, j: int|
                0 <= i < self.objects@.len() && 0 <= j < self.objects@.len() && i
                    != j implies ranges_disjoint(
                #[trigger] self.objects@[i],
                #[trigger] self.objects@[j],
            ) by {
                if i < pre.objects@.len() && j < pre.objects@.len() {
                    assert(pre.lists_disjoint());
                } else if i < pre.objects@.len() {
                    assert(self.objects@[j] == o);
                    if o is List {
                        assert(list_end(pre.objects@[i]) <= o->List_start);
                    }
                } else {
                    assert(self.objects@[i] == o);
                    if o is List {
                        assert(list_end(pre.objects@[j]) <= o->List_start);
                    }
                }
            }
        }
        h
    }

    /// Allocates a none object.
    pub fn alloc_none(&mut self) -> (h: usize)
        requires
            old(self).wf(),
        ensures
            final(self).alloc_post(*old(self), HostObject::NoneType, h),
            final(self).tag_of(h) == ObjectType::NoneType,
    {
        self.alloc_obj(HostObject::NoneType)
    }

    /// Allocates a boolean object.
    pub fn alloc_bool(&mut self, b: bool) -> (h: usize)
        requires
            old(self).wf(),
        ensures
            final(self).alloc_post(*old(self), HostObject::Bool(b), h),
            final(self).tag_of(h) == ObjectType::Bool,
            final(self).bool_val(h) == b,
    {
        self.alloc_obj(HostObject::Bool(b))
    }

    /// Allocates an integer object.
    pub fn alloc_int(&mut self, i: i64) -> (h: usize)
        requires
            old(self).wf(),
        ensures
            final(self).alloc_post(*old(self), HostObject::Int(i), h),
            final(self).tag_of(h) == ObjectType::Int,
            final(self).int_val(h) == i,
    {
        self.alloc_obj(HostObject::Int(i))
    }

    /// Allocates a floating-point object from its raw bit pattern and the
    /// rendering the host computed for it.
    pub fn alloc_float(&mut self, bits: u64, display: String) -> (h: usize)
        requires
            old(self).wf(),
        ensures
            final(self).alloc_post(*old(self), HostObject::Float(bits, display), h),
            final(self).tag_of(h) == ObjectType::Float,
            final(self).float_bits(h) == bits,
    {
        self.alloc_obj(HostObject::Float(bits, display))
    }

    /// Allocates a text object.
    pub fn alloc_str(&mut self, s: String) -> (h: usize)
        requires
            old(self).wf(),
        ensures
            final(self).alloc_post(*old(self), HostObject::Str(s), h),
            final(self).tag_of(h) == ObjectType::Str,
            final(self).str_val(h) == s@,
    {
        self.alloc_obj(HostObject::Str(s))
    }

    /// Allocates an object outside the closed tag set, carrying the
    /// outcome of its display hook: absent when the hook fails.
    pub fn alloc_other(&mut self, display: Option<String>) -> (h: usize)
        requires
            old(self).wf(),
        ensures
            final(self).alloc_post(*old(self), HostObject::Other(display), h),
            final(self).tag_of(h) == ObjectType::Other,
    {
        self.alloc_obj(HostObject::Other(display))
    }

    /// Allocates a mapping object over the given entries, whose keys must
    /// be live, hashable and pairwise distinct under the host's key
    /// equality, and whose values must be live.
    pub fn alloc_dict(&mut self, entries: Vec<(usize, usize)>) -> (h: usize)
        requires
            old(self).wf(),
            old(self).dict_entries_wf(entries@),
        ensures
            final(self).alloc_post(*old(self), HostObject::Dict(entries), h),
            final(self).tag_of(h) == ObjectType::Dict,
            final(self).dict_entries(h) == entries@,
    {
        self.alloc_obj(HostObject::Dict(entries))
    }

    /// Allocates a fresh sequence of `n` empty cells — the host's
    /// build-then-populate protocol. The caller owns the one reference.
    pub fn alloc_list(&mut self, n: usize) -> (h: usize)
        requires
            old(self).wf(),
            n <= (isize::MAX as usize),
        ensures
            final(self).wf(),
            final(self).valid(h),
            h as int == old(self).objects@.len(),
            final(self).objects@.len() == old(self).objects@.len() + 1,
            forall|i: int|
                0 <= i < old(self).objects@.len() ==> #[trigger] final(self).objects@[i] == old(
                    self,
                ).objects@[i],
            final(self).rcs@ == old(self).rcs@.push(1u64),
            final(self).cells@.len() == old(self).cells@.len() + n,
            forall|c: int|
                0 <= c < old(self).cells@.len() ==> #[trigger] final(self).cells@[c] == old(
                    self,
                ).cells@[c],
            final(self).tag_of(h) == ObjectType::List,
            final(self).list_start(h) == old(self).cells@.len(),
            final(self).list_len(h) == n as int,
            forall|i: int| 0 <= i < n ==> #[trigger] final(self).list_cell(h, i) is None,
            final(self).rc_of(h) == 1,
    {
        let start = self.cells.len();
        let mut i: usize = 0;
        while i < n
            invariant
                i <= n,
                self.objects@ == old(self).objects@,
                self.rcs@ == old(self).rcs@,
                self.cells@.len() == start + i,
                start == old(self).cells@.len(),
                forall|c: int|
                    0 <= c < start ==> #[trigger] self.cells@[c] == old(self).cells@[c],
                forall|c: int| start <= c < start + i ==> #[trigger] self.cells@[c] is None,
                old(self).wf(),
            decreases n - i,
        {
            self.cells.push(None);
            i += 1;
        }
        proof {
            let pre = *old(self);
            assert forall|k: int| 0 <= k < self.objects@.len() implies self.obj_wf(
                #[trigger] self.objects@[k],
            ) by {
                assert(pre.obj_wf(pre.objects@[k]));
            }
            assert(self.wf());
            assert forall|k: int| 0 <= k < self.objects@.len() implies list_end(
                #[trigger] self.objects@[k],
            ) <= start by {
                assert(pre.obj_wf(pre.objects@[k]));
            }
        }
        let h = self.alloc_obj(HostObject::List { start, len: n });
        h
    }

    /// The value of the first entry of `es` whose key the host identifies
    /// with `key`; nothing when no entry matches.
    pub open spec fn dict_get_from(self, es: Seq<(usize, usize)>, key: usize) -> Option<usize>
        decreases es.len(),
    {
        if es.len() == 0 {
            None
        } else if self.key_eq(es[0].0, key) {
            Some(es[0].1)
        } else {
            self.dict_get_from(es.drop_first(), key)
        }
    }

    /// What the host's mapping lookup answers for `key` in the mapping `h`.
    pub open spec fn dict_get(self, h: usize, key: usize) -> Option<usize> {
        self.dict_get_from(self.dict_entries(h), key)
    }

    /// Searching past a prefix without a matching key answers the same.
    proof fn lemma_dict_get_skip(self, es: Seq<(usize, usize)>, key: usize, i: int)
        requires
            0 <= i <= es.len(),
            forall|j: int| 0 <= j < i ==> !self.key_eq((#[trigger] es[j]).0, key),
        ensures
            self.dict_get_from(es, key) == self.dict_get_from(es.skip(i), key),
        decreases i,
    {
        if i > 0 {
            assert(!self.key_eq(es[0].0, key));
            assert forall|j: int| 0 <= j < i - 1 implies !self.key_eq(
                (#[trigger] es.drop_first()[j]).0,
                key,
            ) by {
                assert(es.drop_first()[j] == es[j + 1]);
            }
            self.lemma_dict_get_skip(es.drop_first(), key, i - 1);
            assert(es.drop_first().skip(i - 1) =~= es.skip(i));
        } else {
            assert(es.skip(0) =~= es);
        }
    }

    /// Law: looking an unhashable key up in a well-formed mapping finds
    /// nothing — mapping keys are all hashable, so the host's lookup
    /// failure and a missing key coincide on the empty answer.
    pub proof fn lemma_unhashable_key_misses(self, h: usize, key: usize)
        requires
            self.wf(),
            self.valid(h),
            self.tag_of(h) == ObjectType::Dict,
            !self.hashable(key),
        ensures
            self.dict_get(h, key) is None,
    {
        let es = self.dict_entries(h);
        assert(self.obj_wf(self.objects@[h as int]));
        assert forall|j: int| 0 <= j < es.len() implies !self.key_eq(
            (#[trigger] es[j]).0,
            key,
        ) by {
            assert(self.hashable(es[j].0));
        }
        self.lemma_dict_get_skip(es, key, es.len() as int);
        assert(es.skip(es.len() as int).len() == 0);
    }

    /// Whether the host's key equality identifies the live handles `a`
    /// and `b`.
    pub fn keys_equal(&self, a: usize, b: usize) -> (r: bool)
        requires
            self.valid(a),
            self.valid(b),
        ensures
            r == self.key_eq(a, b),
    {
        if a == b {
            return true;
        }
        let oa = &self.objects[a];
        let ob = &self.objects[b];
        proof {
            assert(*oa == self.obj_of(a));
            assert(*ob == self.obj_of(b));
        }
        match (oa, ob) {
            (HostObject::NoneType, HostObject::NoneType) => true,
            (HostObject::Bool(p), HostObject::Bool(q)) => *p == *q,
            (HostObject::Int(p), HostObject::Int(q)) => *p == *q,
            (HostObject::Str(p), HostObject::Str(q)) => p.eq(q),
            (HostObject::Bool(p), HostObject::Int(q)) => (if *p {
                1i64
            } else {
                0i64
            }) == *q,
            (HostObject::Int(p), HostObject::Bool(q)) => *p == (if *q {
                1i64
            } else {
                0i64
            }),
            _ => false,
        }
    }

    /// The host's mapping lookup: scans the entries of the mapping `h` for
    /// a key the host identifies with `key` and hands back the associated
    /// value. The answer is exactly `dict_get`, and any value handed back
    /// is live.
    pub fn mapping_lookup(&self, h: usize, key: usize) -> (r: Option<usize>)
        requires
            self.wf(),
            self.valid(h),
            self.tag_of(h) == ObjectType::Dict,
            self.valid(key),
        ensures
            r == self.dict_get(h, key),
            r matches Some(v) ==> self.valid(v),
    {
        proof {
            assert(self.obj_wf(self.objects@[h as int]));
        }
        match &self.objects[h] {
            HostObject::Dict(es) => {
                let ghost entries = self.dict_entries(h);
                let n = es.len();
                let mut i: usize = 0;
                while i < n
                    invariant
                        self.wf(),
                        self.valid(h),
                        self.valid(key),
                        self.obj_of(h) == HostObject::Dict(*es),
                        es@ == entries,
                        self.dict_entries_wf(entries),
                        n == entries.len(),
                        i <= n,
                        forall|j: int|
                            0 <= j < i ==> !self.key_eq((#[trigger] entries[j]).0, key),
                    decreases n - i,
                {
                    let kv = es[i];
                    if self.keys_equal(kv.0, key) {
                        proof {
                            self.lemma_dict_get_skip(entries, key, i as int);
                            assert(entries.skip(i as int)[0] == entries[i as int]);
                            assert(self.dict_get_from(entries.skip(i as int), key) == Some(
                                kv.1,
                            ));
                        }
                        return Some(kv.1);
                    }
                    i += 1;
                }
                proof {
                    self.lemma_dict_get_skip(entries, key, n as int);
                    assert(entries.skip(n as int).len() == 0);
                }
                None
            },
            _ => {
                proof {
                    assert(false);
                }
                None
            },
        }
    }

    /// The textual representation the host renders for `h`, with `fuel`
    /// bounding the nesting depth it will follow: canonical tokens for the
    /// scalar tags, the stored rendering for floats and for objects with a
    /// display hook, and bracketed, comma-joined element renderings for
    /// containers. No text comes of a failed display hook, an unpopulated
    /// slot, or a structure deeper than the fuel allows.
    pub open spec fn str_repr_fuel(self, h: usize, fuel: nat) -> Option<Seq<char>>
        decreases fuel, 0int,
    {
        match self.obj_of(h) {
            HostObject::NoneType => Some("None"@),
            HostObject::Bool(b) => Some(if b { "True"@ } else { "False"@ }),
            HostObject::Int(i) => Some(dec_str(i as int)),
            HostObject::Float(_, d) => Some(d@),
            HostObject::Str(s) => Some(s@),
            HostObject::List { start, len } => {
                if fuel == 0 {
                    None
                } else {
                    match self.render_cells(
                        self.cells@.subrange(start as int, start + len),
                        (fuel - 1) as nat,
                    ) {
                        Some(t) => Some("["@ + t + "]"@),
                        None => None,
                    }
                }
            },
            HostObject::Dict(es) => {
                if fuel == 0 {
                    None
                } else {
                    match self.render_entries(es@, (fuel - 1) as nat) {
                        Some(t) => Some("{"@ + t + "}"@),
                        None => None,
                    }
                }
            },
            HostObject::Other(d) => match d {
                Some(s) => Some(s@),
                None => None,
            },
        }
    }

    /// The comma-joined renderings of the sequence cells `cs`; no text
    /// when a cell is unpopulated or an element does not render.
    pub open spec fn render_cells(self, cs: Seq<Option<usize>>, fuel: nat) -> Option<Seq<char>>
        decreases fuel, cs.len() + 1,
    {
        if cs.len() == 0 {
            Some(Seq::empty())
        } else {
            match cs[0] {
                None => None,
                Some(e) => match self.str_repr_fuel(e, fuel) {
                    None => None,
                    Some(t) => match self.render_cells(cs.drop_first(), fuel) {
                        None => None,
                        Some(rest) => Some(
                            if cs.len() == 1 {
                                t
                            } else {
                                t + ", "@ + rest
                            },
                        ),
                    },
                },
            }
        }
    }

    /// The comma-joined `key: value` renderings of the mapping entries
    /// `es`; no text when a key or value does not render.
    pub open spec fn render_entries(self, es: Seq<(usize, usize)>, fuel: nat) -> Option<
        Seq<char>,
    >
        decreases fuel, es.len() + 1,
    {
        if es.len() == 0 {
            Some(Seq::empty())
        } else {
            match (self.str_repr_fuel(es[0].0, fuel), self.str_repr_fuel(es[0].1, fuel)) {
                (Some(tk), Some(tv)) => match self.render_entries(es.drop_first(), fuel) {
                    None => None,
                    Some(rest) => Some(
                        if es.len() == 1 {
                            tk + ": "@ + tv
                        } else {
                            tk + ": "@ + tv + ", "@ + rest
                        },
                    ),
                },
                _ => None,
            }
        }
    }

    /// The textual representation the host renders for `h`. Any acyclic
    /// structure is within the depth the fuel grants — a simple path
    /// cannot visit more objects than the host holds — so only a
    /// self-referential structure exhausts it and yields no text.
    pub open spec fn str_repr(self, h: usize) -> Option<Seq<char>> {
        self.str_repr_fuel(h, (self.objects@.len() + 1) as nat)
    }

    /// Renders one live object with the given depth budget; the answer is
    /// exactly what `str_repr_fuel` says.
    fn render_obj(&self, h: usize, fuel: u128) -> (r: Option<String>)
        requires
            self.wf(),
            self.valid(h),
        ensures
            r is Some <==> self.str_repr_fuel(h, fuel as nat) is Some,
            r matches Some(s) ==> (self.str_repr_fuel(h, fuel as nat) matches Some(t) && s@
                == t),
        decreases fuel, 0int,
    {
        proof {
            assert(self.obj_wf(self.objects@[h as int]));
        }
        match &self.objects[h] {
            HostObject::NoneType => Some(String::from_str("None")),
            HostObject::Bool(b) => {
                if *b {
                    Some(String::from_str("True"))
                } else {
                    Some(String::from_str("False"))
                }
            },
            HostObject::Int(i) => Some(crate::decimal::i64_to_string(*i)),
            HostObject::Float(_, d) => Some(d.clone()),
            HostObject::Str(s) => Some(s.clone()),
            HostObject::List { start, len } => {
                if fuel == 0 {
                    None
                } else {
                    let sub = self.render_cells_exec(*start, *len, 0, fuel - 1);
                    proof {
                        assert(self.cells@.subrange(*start + 0, *start + *len)
                            =~= self.cells@.subrange(*start as int, *start + *len));
                    }
                    match sub {
                        Some(t) => {
                            let mut out = String::from_str("[");
                            out.append(t.as_str());
                            out.append("]");
                            Some(out)
                        },
                        None => None,
                    }
                }
            },
            HostObject::Dict(es) => {
                if fuel == 0 {
                    None
                } else {
                    let sub = self.render_entries_exec(es, 0, fuel - 1);
                    proof {
                        assert(es@.skip(0) =~= es@);
                    }
                    match sub {
                        Some(t) => {
                            let mut out = String::from_str("{");
                            out.append(t.as_str());
                            out.append("}");
                            Some(out)
                        },
                        None => None,
                    }
                }
            },
            HostObject::Other(d) => match d {
                Some(s) => Some(s.clone()),
                None => None,
            },
        }
    }

    /// Renders the cells `start + i .. start + len`, comma-joined.
    fn render_cells_exec(&self, start: usize, len: usize, i: usize, fuel: u128) -> (r: Option<
        String,
    >)
        requires
            self.wf(),
            start + len <= self.cells@.len(),
            i <= len,
        ensures
            r is Some <==> self.render_cells(
                self.cells@.subrange(start + i, start + len),
                fuel as nat,
            ) is Some,
            r matches Some(s) ==> (self.render_cells(
                self.cells@.subrange(start + i, start + len),
                fuel as nat,
            ) matches Some(t) && s@ == t),
        decreases fuel, len - i + 1,
    {
        let ghost cs = self.cells@.subrange(start + i, start + len);
        if i == len {
            proof {
                assert(cs.len() == 0);
            }
            return Some(String::new());
        }
        let total = self.cells.len();
        proof {
            assert(start + i < total);
            assert(cs[0] == self.cells@[start + i]);
        }
        match self.cells[start + i] {
            None => None,
            Some(e) => {
                match self.render_obj(e, fuel) {
                    None => None,
                    Some(t) => {
                        match self.render_cells_exec(start, len, i + 1, fuel) {
                            None => {
                                proof {
                                    assert(cs.drop_first() =~= self.cells@.subrange(
                                        start + i + 1,
                                        start + len,
                                    ));
                                }
                                None
                            },
                            Some(rest) => {
                                proof {
                                    assert(cs.drop_first() =~= self.cells@.subrange(
                                        start + i + 1,
                                        start + len,
                                    ));
                                }
                                if i + 1 == len {
                                    Some(t)
                                } else {
                                    let mut out = t;
                                    out.append(", ");
                                    out.append(rest.as_str());
                                    Some(out)
                                }
                            },
                        }
                    },
                }
            },
        }
    }

    /// Renders the mapping entries `es[i..]` as `key: value`, comma-joined.
    fn render_entries_exec(&self, es: &Vec<(usize, usize)>, i: usize, fuel: u128) -> (r: Option<
        String,
    >)
        requires
            self.wf(),
            self.dict_entries_wf(es@),
            i <= es@.len(),
        ensures
            r is Some <==> self.render_entries(es@.skip(i as int), fuel as nat) is Some,
            r matches Some(s) ==> (self.render_entries(es@.skip(i as int), fuel as nat)
                matches Some(t) && s@ == t),
        decreases fuel, es@.len() - i + 1,
    {
        let ghost tail = es@.skip(i as int);
        if i == es.len() {
            proof {
                assert(tail.len() == 0);
            }
            return Some(String::new());
        }
        let kv = es[i];
        proof {
            assert(tail[0] == es@[i as int]);
        }
        let rk = self.render_obj(kv.0, fuel);
        let rv = self.render_obj(kv.1, fuel);
        match (rk, rv) {
            (Some(tk), Some(tv)) => {
                match self.render_entries_exec(es, i + 1, fuel) {
                    None => {
                        proof {
                            assert(tail.drop_first() =~= es@.skip(i + 1));
                        }
                        None
                    },
                    Some(rest) => {
                        proof {
                            assert(tail.drop_first() =~= es@.skip(i + 1));
                        }
                        let mut out = tk;
                        out.append(": ");
                        out.append(tv.as_str());
                        if i + 1 < es.len() {
                            out.append(", ");
                            out.append(rest.as_str());
                        }
                        Some(out)
                    },
                }
            },
            _ => None,
        }
    }

    /// Law: a none-tagged object always renders, and renders as the
    /// host's canonical null-display token.
    pub proof fn lemma_none_renders_canonically(self, h: usize)
        requires
            self.valid(h),
            self.tag_of(h) == ObjectType::NoneType,
        ensures
            self.str_repr(h) == Some("None"@),
    {
    }

    /// The host's stringify routine: renders any live object, and fails
    /// exactly when the rendering does — on a failed display hook, an
    /// unpopulated slot, or a self-referential structure.
    pub fn stringify(&self, h: usize) -> (r: Result<String, ConversionError>)
        requires
            self.wf(),
            self.valid(h),
        ensures
            r is Ok <==> self.str_repr(h) is Some,
            r matches Ok(s) ==> (self.str_repr(h) matches Some(t) && s@ == t),
    {
        let fuel: u128 = (self.objects.len() as u128) + 1;
        proof {
            assert(fuel as nat == (self.objects@.len() + 1) as nat);
        }
        match self.render_obj(h, fuel) {
            Some(s) => Ok(s),
            None => Err(ConversionError),
        }
    }
}

} // verus!
