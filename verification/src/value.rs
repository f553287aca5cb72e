//! The narrowable views a validation engine works with: `Value`, `Array`
//! and `Dict`.
//!
//! A `Value` is a tagged, non-owning view over one host object: wrapping
//! classifies the handle exactly once, and the narrowing accessors answer
//! with the payload exactly when the cached tag matches — never with an
//! abort. `Array` and `Dict` are the typed sub-views for sequence and
//! mapping handles; their tag invariant is established by the caller,
//! normally by arriving through `Value::as_array` or `Value::as_dict`.

use vstd::prelude::*;

verus! {

use crate::host::{ConversionError, Host, HostObject, ObjectType};

/// A tagged, non-owning view over a single host object.
pub struct Value {
    /// The wrapped handle.
    pub handle: usize,
    /// The type tag, computed once at construction by the classifier.
    pub object_type: ObjectType,
}

impl Value {
    /// The view is consistent with the host: its handle is live and its
    /// cached tag is what the classifier answers for it.
    pub open spec fn wf(self, host: Host) -> bool {
        host.valid(self.handle) && self.object_type == host.tag_of(self.handle)
    }

    /// Wraps a live handle, classifying it exactly once. There is no
    /// failure mode: an unrecognized shape carries the `Other` tag.
    pub fn new(handle: usize, host: &Host) -> (v: Value)
        requires
            host.valid(handle),
        ensures
            v.handle == handle,
            v.object_type == host.tag_of(handle),
            v.wf(*host),
    {
        Value { handle, object_type: host.classify(handle) }
    }

    /// The raw handle under the view.
    pub fn as_ptr(&self) -> (h: usize)
        ensures
            h == self.handle,
    {
        self.handle
    }

    /// Whether the view wraps the host's none value.
    pub fn is_none(&self) -> (r: bool)
        ensures
            r == (self.object_type == ObjectType::NoneType),
    {
        self.object_type == ObjectType::NoneType
    }

    /// Narrows to a boolean: the payload exactly when the tag is `Bool`.
    pub fn as_bool(&self, host: &Host) -> (r: Option<bool>)
        requires
            self.wf(*host),
        ensures
            self.object_type == ObjectType::Bool ==> r == Some(host.bool_val(self.handle)),
            self.object_type != ObjectType::Bool ==> r is None,
    {
        if self.object_type == ObjectType::Bool {
            match &host.objects[self.handle] {
                HostObject::Bool(b) => Some(*b),
                _ => {
                    proof {
                        assert(false);
                    }
                    None
                },
            }
        } else {
            None
        }
    }

    /// Narrows to a 64-bit integer: the payload exactly when the tag is
    /// `Int`. The model host holds integers at this width, so no silent
    /// truncation can occur here.
    pub fn as_int(&self, host: &Host) -> (r: Option<i64>)
        requires
            self.wf(*host),
        ensures
            self.object_type == ObjectType::Int ==> r == Some(host.int_val(self.handle)),
            self.object_type != ObjectType::Int ==> r is None,
    {
        if self.object_type == ObjectType::Int {
            match &host.objects[self.handle] {
                HostObject::Int(i) => Some(*i),
                _ => {
                    proof {
                        assert(false);
                    }
                    None
                },
            }
        } else {
            None
        }
    }

    /// Narrows to a floating-point payload, as its raw bit pattern,
    /// exactly when the tag is `Float`. This layer never interprets the
    /// bits; the host does.
    pub fn as_float(&self, host: &Host) -> (r: Option<u64>)
        requires
            self.wf(*host),
        ensures
            self.object_type == ObjectType::Float ==> r == Some(host.float_bits(self.handle)),
            self.object_type != ObjectType::Float ==> r is None,
    {
        if self.object_type == ObjectType::Float {
            match &host.objects[self.handle] {
                HostObject::Float(bits, _) => Some(*bits),
                _ => {
                    proof {
                        assert(false);
                    }
                    None
                },
            }
        } else {
            None
        }
    }

    /// Narrows to borrowed text: a view of the payload exactly when the
    /// tag is `Str`. Its validity is bounded by the host borrow.
    pub fn as_str<'a>(&self, host: &'a Host) -> (r: Option<&'a str>)
        requires
            self.wf(*host),
        ensures
            self.object_type == ObjectType::Str ==> (r matches Some(s) && s@ == host.str_val(
                self.handle,
            )),
            self.object_type != ObjectType::Str ==> r is None,
    {
        if self.object_type == ObjectType::Str {
            match &host.objects[self.handle] {
                HostObject::Str(s) => Some(s.as_str()),
                _ => {
                    proof {
                        assert(false);
                    }
                    None
                },
            }
        } else {
            None
        }
    }

    /// Narrows to a sequence view exactly when the tag is `List`.
    pub fn as_array(&self) -> (r: Option<Array>)
        ensures
            self.object_type == ObjectType::List ==> (r matches Some(a) && a.handle
                == self.handle),
            self.object_type != ObjectType::List ==> r is None,
    {
        if self.object_type == ObjectType::List {
            Some(Array::new(self.handle))
        } else {
            None
        }
    }

    /// Narrows to a mapping view exactly when the tag is `Dict`.
    pub fn as_dict(&self) -> (r: Option<Dict>)
        ensures
            self.object_type == ObjectType::Dict ==> (r matches Some(d) && d.handle
                == self.handle),
            self.object_type != ObjectType::Dict ==> r is None,
    {
        if self.object_type == ObjectType::Dict {
            Some(Dict::new(self.handle))
        } else {
            None
        }
    }

    /// Renders the value through the host's stringify routine, whatever
    /// its tag: canonical tokens for scalars, bracketed element renderings
    /// for containers. It fails exactly when the rendering does — on a
    /// failed display hook, an unpopulated slot, or a self-referential
    /// structure.
    pub fn to_string(&self, host: &Host) -> (r: Result<String, ConversionError>)
        requires
            host.wf(),
            self.wf(*host),
        ensures
            r is Ok <==> host.str_repr(self.handle) is Some,
            r matches Ok(s) ==> (host.str_repr(self.handle) matches Some(t) && s@ == t),
    {
        host.stringify(self.handle)
    }
}

/// A non-owning view over a handle known to be a sequence, with indexed
/// read and write access and capacity-based construction.
pub struct Array {
    /// The wrapped handle.
    pub handle: usize,
}

impl Array {
    /// The view is consistent with the host: its handle is live and
    /// carries the sequence tag.
    pub open spec fn wf(self, host: Host) -> bool {
        host.valid(self.handle) && host.tag_of(self.handle) == ObjectType::List
    }

    /// Wraps an existing sequence handle (non-owning). The tag invariant
    /// is the caller's: the normal path here is `Value::as_array`.
    pub fn new(handle: usize) -> (a: Array)
        ensures
            a.handle == handle,
    {
        Array { handle }
    }

    /// Allocates a fresh sequence of `capacity` empty slots in the host
    /// heap; the returned view owns the one reference to it. Every slot
    /// must be populated through `set` before it is read.
    pub fn new_with_capacity(capacity: isize, host: &mut Host) -> (a: Array)
        requires
            old(host).wf(),
            capacity >= 0,
        ensures
            final(host).wf(),
            a.wf(*final(host)),
            a.handle as int == old(host).objects@.len(),
            final(host).list_len(a.handle) == capacity as int,
            final(host).rc_of(a.handle) == 1,
            forall|i: int| 0 <= i < capacity ==> final(host).list_cell(a.handle, i) is None,
            final(host).objects@.len() == old(host).objects@.len() + 1,
            forall|i: int|
                0 <= i < old(host).objects@.len() ==> #[trigger] final(host).objects@[i] == old(
                    host,
                ).objects@[i],
            final(host).rcs@ == old(host).rcs@.push(1u64),
            final(host).cells@.len() == old(host).cells@.len() + capacity,
            forall|c: int|
                0 <= c < old(host).cells@.len() ==> #[trigger] final(host).cells@[c] == old(
                    host,
                ).cells@[c],
    {
        let h = host.alloc_list(capacity as usize);
        Array { handle: h }
    }

    /// The raw handle under the view.
    pub fn as_ptr(&self) -> (h: usize)
        ensures
            h == self.handle,
    {
        self.handle
    }

    /// The sequence length. Observing it changes no reference count.
    pub fn len(&self, host: &Host) -> (n: isize)
        requires
            host.wf(),
            self.wf(*host),
        ensures
            n as int == host.list_len(self.handle),
            n >= 0,
    {
        proof {
            assert(host.obj_wf(host.objects@[self.handle as int]));
        }
        match &host.objects[self.handle] {
            HostObject::List { len, .. } => *len as isize,
            _ => {
                proof {
                    assert(false);
                }
                0
            },
        }
    }

    /// A non-owning view of the element at `index`. The bounds and the
    /// populated slot are the caller's obligation: an index outside
    /// `[0, len)` or a never-populated slot is a fatal precondition
    /// violation, not a recoverable outcome.
    pub fn get_item(&self, index: isize, host: &Host) -> (v: Value)
        requires
            host.wf(),
            self.wf(*host),
            0 <= index < host.list_len(self.handle),
            host.list_cell(self.handle, index as int) is Some,
        ensures
            host.list_cell(self.handle, index as int) matches Some(h) && v.handle == h,
            v.object_type == host.tag_of(v.handle),
            v.wf(*host),
    {
        proof {
            assert(host.obj_wf(host.objects@[self.handle as int]));
        }
        match &host.objects[self.handle] {
            HostObject::List { start, .. } => {
                let n = host.cells.len();
                proof {
                    assert(host.list_start(self.handle) == *start as int);
                    assert(host.list_start(self.handle) + host.list_len(self.handle) <= n as int);
                }
                let cell = host.cells[*start + (index as usize)];
                match cell {
                    Some(h) => Value::new(h, host),
                    None => {
                        proof {
                            assert(false);
                        }
                        Value { handle: 0, object_type: ObjectType::NoneType }
                    },
                }
            },
            _ => {
                proof {
                    assert(false);
                }
                Value { handle: 0, object_type: ObjectType::NoneType }
            },
        }
    }

    /// Stores `value` at `index`, stealing the caller's reference: the
    /// sequence now holds it, and the reference the sequence held for the
    /// prior occupant, if the slot was populated, is released — that
    /// occupant's count drops by exactly one. An index outside `[0, len)`
    /// is a fatal precondition violation.
    pub fn set(&mut self, index: isize, value: usize, host: &mut Host)
        requires
            old(host).wf(),
            old(self).wf(*old(host)),
            old(host).valid(value),
            0 <= index < old(host).list_len(old(self).handle),
            (old(host).list_cell(old(self).handle, index as int) matches Some(p) ==> old(
                host,
            ).rc_of(p) >= 1),
        ensures
            *final(self) == *old(self),
            final(host).wf(),
            final(self).wf(*final(host)),
            final(host).objects@ == old(host).objects@,
            final(host).cells@.len() == old(host).cells@.len(),
            // the slot now holds the stolen reference
            final(host).list_cell(old(self).handle, index as int) == Some(value),
            // every other cell is untouched
            forall|c: int|
                0 <= c < old(host).cells@.len() && c != old(host).list_start(old(self).handle)
                    + index ==> #[trigger] final(host).cells@[c] == old(host).cells@[c],
            // the prior occupant's count drops by exactly one; every other
            // count is untouched
            (match old(host).list_cell(old(self).handle, index as int) {
                Some(p) => final(host).rcs@ == old(host).rcs@.update(
                    p as int,
                    ((old(host).rc_of(p) - 1) as u64),
                ),
                None => final(host).rcs@ == old(host).rcs@,
            }),
    {
        proof {
            assert(host.obj_wf(host.objects@[self.handle as int]));
        }
        let start = match &host.objects[self.handle] {
            HostObject::List { start, .. } => *start,
            _ => {
                proof {
                    assert(false);
                }
                0
            },
        };
        let n = host.cells.len();
        proof {
            assert(old(host).list_start(old(self).handle) == start as int);
            assert(old(host).list_start(old(self).handle) + old(host).list_len(old(self).handle)
                <= n as int);
        }
        let j = start + (index as usize);
        let prior = host.cells[j];
        host.cells[j] = Some(value);
        match prior {
            Some(p) => {
                let r = host.rcs[p];
                host.rcs[p] = r - 1;
            },
            None => {},
        }
    }
}

/// A non-owning view over a handle known to be a mapping, with keyed,
/// read-only lookup.
pub struct Dict {
    /// The wrapped handle.
    pub handle: usize,
}

impl Dict {
    /// The view is consistent with the host: its handle is live and
    /// carries the mapping tag.
    pub open spec fn wf(self, host: Host) -> bool {
        host.valid(self.handle) && host.tag_of(self.handle) == ObjectType::Dict
    }

    /// Wraps an existing mapping handle (non-owning). The tag invariant
    /// is the caller's: the normal path here is `Value::as_dict`.
    pub fn new(handle: usize) -> (d: Dict)
        ensures
            d.handle == handle,
    {
        Dict { handle }
    }

    /// Keyed lookup. A present key yields a view of its associated value;
    /// an absent key and a failed lookup (an unhashable key) both collapse
    /// to the empty option, exactly as the host reports them.
    pub fn get_item(&self, key: usize, host: &Host) -> (r: Option<Value>)
        requires
            host.wf(),
            self.wf(*host),
            host.valid(key),
        ensures
            (match host.dict_get(self.handle, key) {
                Some(h) => r matches Some(v) && v.handle == h && v.object_type == host.tag_of(h)
                    && v.wf(*host),
                None => r is None,
            }),
            !host.hashable(key) ==> r is None,
    {
        proof {
            if !host.hashable(key) {
                host.lemma_unhashable_key_misses(self.handle, key);
            }
        }
        match host.mapping_lookup(self.handle, key) {
            Some(h) => Some(Value::new(h, host)),
            None => None,
        }
    }
}

} // verus!
