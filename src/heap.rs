use vstd::prelude::*;
use std::rc::Rc;
use crate::ast::Function;
use crate::number::Num;
use crate::text::{num_text, num_to_string};
use crate::object::{Access, Closure, HostFn, JSObject, Payload, ScopeFrame, binds, keys_unique, own_value, prop_value, values_valid};
use crate::source::Location;
use crate::value::{Exception, Interpreted, JSResult, JSValue, ObjectId, valid_interpreted, valid_value};

verus! {

/// The null reference: never dereferenced.
pub const NULL: usize = 0;
/// The global object, which is also the outermost scope.
pub const GLOBAL: usize = 1;
/// `Object.prototype`
pub const OBJECT_PROTO: usize = 2;
/// `Array.prototype`
pub const ARRAY_PROTO: usize = 3;
/// `Array.prototype.push`
pub const ARRAY_PUSH: usize = 4;
/// `Error.prototype`
pub const ERROR_PROTO: usize = 5;
/// `Error`
pub const ERROR_CTOR: usize = 6;
/// The number of slots a fresh heap holds.
pub const FIRST_FREE: usize = 7;

/// The object arena, with the current scope and the location of the node
/// being evaluated.
#[derive(Debug)]
pub struct Heap {
    pub objects: Vec<JSObject>,
    /// The scope in which names are looked up and declared.
    pub scope: ObjectId,
    /// The source location of the statement or expression being evaluated.
    pub loc: Option<Location>,
}

/// The value `name` has on object `id`: its own property if it has one,
/// else what its prototype chain gives.
pub open spec fn chain_value(objs: Seq<JSObject>, id: int, name: Seq<char>) -> Option<JSValue>
    decreases id,
{
    if id <= 0 || id >= objs.len() {
        None
    } else {
        match own_value(objs[id], name) {
            Some(v) => Some(v),
            None => if objs[id].proto < id {
                chain_value(objs, objs[id].proto as int, name)
            } else {
                None
            },
        }
    }
}

/// The scope that binds `name`, looking from scope `id` outwards along the
/// lexically enclosing scopes.
pub open spec fn binding_scope(objs: Seq<JSObject>, id: int, name: Seq<char>) -> Option<int>
    decreases id,
{
    if id <= 0 || id >= objs.len() {
        None
    } else if own_value(objs[id], name) is Some {
        Some(id)
    } else {
        match objs[id].payload {
            Payload::Scope(f) => if f.saved_scope < id {
                binding_scope(objs, f.saved_scope as int, name)
            } else {
                None
            },
            _ => None,
        }
    }
}

/// The text of an array element when the array is joined.
pub open spec fn item_text(v: JSValue) -> Seq<char> {
    match v {
        JSValue::Undefined => Seq::empty(),
        JSValue::Null => Seq::empty(),
        JSValue::Ref(_) => object_object(),
        _ => primitive_text(v),
    }
}

pub open spec fn object_object() -> Seq<char> {
    seq!['[', 'o', 'b', 'j', 'e', 'c', 't', ' ', 'O', 'b', 'j', 'e', 'c', 't', ']']
}

pub open spec fn function_word() -> Seq<char> {
    seq!['f', 'u', 'n', 'c', 't', 'i', 'o', 'n']
}

/// The elements of an array joined with commas.
pub open spec fn join_items(items: Seq<JSValue>) -> Seq<char>
    decreases items.len(),
{
    if items.len() == 0 {
        Seq::empty()
    } else if items.len() == 1 {
        item_text(items[0])
    } else {
        join_items(items.drop_last()) + seq![','] + item_text(items.last())
    }
}

/// The text of an error: its name, then `: ` and its message if that is not empty.
pub open spec fn error_text(name: Seq<char>, message: Seq<char>) -> Seq<char> {
    if message.len() == 0 {
        name
    } else {
        name + seq![':', ' '] + message
    }
}

/// The text an object converts to.
pub open spec fn object_text_spec(objs: Seq<JSObject>, id: int) -> Seq<char> {
    match objs[id].payload {
        Payload::Array(items) => join_items(items@),
        Payload::Str(t) => t@,
        Payload::Closure(_) => function_word(),
        Payload::Host(_) => function_word(),
        Payload::Error => error_text(
            match chain_value(objs, id, seq!['n', 'a', 'm', 'e']) {
                Some(JSValue::String(t)) => t@,
                _ => seq!['E', 'r', 'r', 'o', 'r'],
            },
            match chain_value(objs, id, seq!['m', 'e', 's', 's', 'a', 'g', 'e']) {
                Some(JSValue::String(t)) => t@,
                _ => Seq::empty(),
            },
        ),
        _ => object_object(),
    }
}

/// The text any value converts to.
pub open spec fn value_text(objs: Seq<JSObject>, v: JSValue) -> Seq<char> {
    match v {
        JSValue::Ref(id) => object_text_spec(objs, id as int),
        _ => primitive_text(v),
    }
}

/// What `typeof` gives.
pub open spec fn typeof_text(objs: Seq<JSObject>, v: JSValue) -> Seq<char> {
    match v {
        JSValue::Undefined => seq!['u', 'n', 'd', 'e', 'f', 'i', 'n', 'e', 'd'],
        JSValue::Null => seq!['o', 'b', 'j', 'e', 'c', 't'],
        JSValue::Bool(_) => seq!['b', 'o', 'o', 'l', 'e', 'a', 'n'],
        JSValue::Number(_) => seq!['n', 'u', 'm', 'b', 'e', 'r'],
        JSValue::String(_) => seq!['s', 't', 'r', 'i', 'n', 'g'],
        JSValue::Ref(id) => match objs[id as int].payload {
            Payload::Closure(_) => function_word(),
            Payload::Host(_) => function_word(),
            _ => seq!['o', 'b', 'j', 'e', 'c', 't'],
        },
    }
}

/// Object `f` is object `o` after assigning `value` to its property `name`.
pub open spec fn assigned(o: JSObject, name: String, value: JSValue, f: JSObject) -> bool {
    &&& f.proto == o.proto
    &&& !(o.payload is Array) ==> f.payload == o.payload
    &&& !(o.payload is Array) && !(o.payload is Str) ==> f.properties@ == crate::object::write_spec(o.properties@, name, value)
    &&& (o.payload is Array ==> if name@ == crate::object::length_name() {
        f == o
    } else {
        match crate::text::index_name(name@) {
            Some(i) => f.properties == o.properties && f.payload == Payload::Array(f.payload->Array_0)
                && f.payload->Array_0@ == crate::object::set_items(o.payload->Array_0@, i, value),
            None => f.payload == o.payload && f.properties@ == crate::object::write_spec(o.properties@, name, value),
        }
    })
    &&& forall|j: int|
        0 <= j < o.properties@.len() && !(#[trigger] o.properties@[j]).1.access.write ==> f.properties@[j] == o.properties@[j]
}

/// Object `f` is object `o` after `delete o[name]` answered `r`.
pub open spec fn deleted(o: JSObject, name: Seq<char>, r: bool, f: JSObject) -> bool {
    &&& f.proto == o.proto
    &&& f.payload == o.payload
    &&& crate::object::delete_blocked(o, name) ==> !r && f == o
    &&& !crate::object::delete_blocked(o, name) ==> match crate::object::key_pos(o.properties@, name) {
        Some(j) => if o.properties@[j].1.access.configurable {
            r && f.properties@ == o.properties@.remove(j)
        } else {
            !r && f.properties@ == o.properties@
        },
        None => r && f.properties@ == o.properties@,
    }
    &&& forall|j: int|
        0 <= j < o.properties@.len() && !(#[trigger] o.properties@[j]).1.access.configurable
            ==> f.properties@.contains(o.properties@[j])
}

/// Heap `h2` is heap `h` with only object `id` changed.
pub open spec fn only_changed(h: Heap, id: int, h2: Heap) -> bool {
    &&& h2.scope == h.scope
    &&& h2.loc == h.loc
    &&& h2.objects@.len() == h.objects@.len()
    &&& forall|i: int| 0 <= i < h.objects@.len() && i != id ==> h2.objects@[i] == h.objects@[i]
}

/// What writing `value` to `place` does: a member is assigned, and a value
/// is no place to write to.
pub open spec fn put_outcome(h: Heap, place: Interpreted, value: JSValue, h2: Heap, r: JSResult<()>) -> bool {
    match place {
        Interpreted::Value(_) => h2 == h && r matches Err(Exception::ReferenceError(_)),
        Interpreted::Member { of, name } => r is Ok && only_changed(h, of as int, h2)
            && assigned(h.objects@[of as int], name, value, h2.objects@[of as int]),
    }
}

/// What `delete place` does: a member is deleted if it may be, and
/// deleting a value does nothing and answers true.
pub open spec fn delete_outcome(h: Heap, place: Interpreted, h2: Heap, r: bool) -> bool {
    match place {
        Interpreted::Value(_) => h2 == h && r,
        Interpreted::Member { of, name } => only_changed(h, of as int, h2)
            && deleted(h.objects@[of as int], name@, r, h2.objects@[of as int]),
    }
}

/// Heap `h2` is heap `h` after object `id` was given the own property
/// `name` with value `value` (see `Heap::define`).
pub open spec fn defined(h: Heap, id: int, name: Seq<char>, value: JSValue, access: Access, h2: Heap) -> bool {
    &&& (crate::object::prop_entry(h2.objects@[id].properties@, name) == Some(crate::object::Property { value, access }))
    &&& (h2.wf())
    &&& (h2.scope == h.scope)
    &&& (h2.loc == h.loc)
    &&& (h2.len() == h.len())
    &&& (forall|i: int| 0 <= i < h.len() && i != id ==> h2.objects@[i] == h.objects@[i])
    &&& (h2.objects@[id].proto == h.objects@[id].proto)
    &&& (h2.objects@[id].payload == h.objects@[id].payload)
    &&& (prop_value(h2.objects@[id].properties@, name) == Some(value))
    &&& (forall|n: Seq<char>|
        n != name ==> #[trigger] prop_value(h2.objects@[id].properties@, n) == prop_value(
            h.objects@[id].properties@,
            n,
        ))
    &&& (binds(h2.objects@[id], name))
    &&& (forall|n: Seq<char>| binds(h.objects@[id], n) ==> #[trigger] binds(h2.objects@[id], n))
}

/// Heap `h2` is heap `h` with a function object for `function` (closing
/// over the current scope) at the first free slot, and after it a fresh
/// object that is its `prototype` (writable, not enumerable, not
/// configurable) and whose hidden `constructor` is the function.
pub open spec fn function_made(h: Heap, function: Rc<Function>, h2: Heap) -> bool {
    let id = h.objects@.len();
    &&& h2.objects@.len() == id + 2
    &&& forall|i: int| 0 <= i < id ==> h2.objects@[i] == h.objects@[i]
    &&& h2.scope == h.scope
    &&& h2.loc == h.loc
    &&& h2.objects@[id as int].payload == Payload::Closure(Closure { function, captured_scope: h.scope })
    &&& h2.objects@[id as int].proto == OBJECT_PROTO
    &&& crate::object::prop_entry(h2.objects@[id as int].properties@, seq!['p', 'r', 'o', 't', 'o', 't', 'y', 'p', 'e'])
        == Some(crate::object::Property {
            value: JSValue::Ref((id + 1) as usize),
            access: Access { write: true, enumerable: false, configurable: false },
        })
    &&& h2.objects@[(id + 1) as int].proto == OBJECT_PROTO
    &&& crate::object::prop_entry(h2.objects@[(id + 1) as int].properties@, seq!['c', 'o', 'n', 's', 't', 'r', 'u', 'c', 't', 'o', 'r'])
        == Some(crate::object::Property {
            value: JSValue::Ref(id as usize),
            access: Access { write: true, enumerable: false, configurable: true },
        })
}

/// Object `o` with `caller` recorded as the call site, if `o` is a scope.
pub open spec fn with_caller(o: JSObject, caller: Location) -> JSObject {
    match o.payload {
        Payload::Scope(f) => JSObject {
            properties: o.properties,
            proto: o.proto,
            payload: Payload::Scope(ScopeFrame { saved_scope: f.saved_scope, this_ref: f.this_ref, caller: Some(caller) }),
        },
        _ => o,
    }
}

/// The text of a primitive value, as string conversion gives it.
pub open spec fn primitive_text(v: JSValue) -> Seq<char> {
    match v {
        JSValue::Undefined => seq!['u', 'n', 'd', 'e', 'f', 'i', 'n', 'e', 'd'],
        JSValue::Null => seq!['n', 'u', 'l', 'l'],
        JSValue::Bool(b) => if b { seq!['t', 'r', 'u', 'e'] } else { seq!['f', 'a', 'l', 's', 'e'] },
        JSValue::Number(n) => num_text(n),
        JSValue::String(s) => s@,
        JSValue::Ref(_) => Seq::empty(),
    }
}

/// The number a primitive value converts to.
pub open spec fn primitive_num(v: JSValue) -> Num {
    match v {
        JSValue::Undefined => Num::NaN,
        JSValue::Null => Num::Int(0),
        JSValue::Bool(b) => if b { Num::Int(1) } else { Num::Int(0) },
        JSValue::Number(n) => n,
        JSValue::String(s) => crate::text::str_num(s@),
        JSValue::Ref(_) => Num::NaN,
    }
}

/// The text of a primitive value.
pub fn primitive_string(v: &JSValue) -> (r: String)
    requires
        !(v is Ref),
    ensures
        r@ == primitive_text(*v),
{
    proof {
        reveal_strlit("undefined");
        reveal_strlit("null");
        reveal_strlit("true");
        reveal_strlit("false");
    }
    match v {
        JSValue::Undefined => String::from_str("undefined"),
        JSValue::Null => String::from_str("null"),
        JSValue::Bool(b) => if *b {
            String::from_str("true")
        } else {
            String::from_str("false")
        },
        JSValue::Number(n) => num_to_string(n),
        JSValue::String(s) => s.clone(),
        JSValue::Ref(_) => String::new(),
    }
}

impl Heap {
    pub open spec fn len(self) -> nat {
        self.objects@.len()
    }

    /// The heap's invariant: the built-in slots exist, the current scope is
    /// allocated, every prototype and every enclosing scope was allocated
    /// before the object that links to it (so both chains are acyclic and end
    /// at the null reference), and every reference points to an allocated slot.
    pub open spec fn wf(self) -> bool {
        let n = self.objects@.len();
        &&& n >= FIRST_FREE
        &&& 1 <= self.scope < n
        &&& forall|i: int| 1 <= i < n ==> (#[trigger] self.objects@[i]).proto < i
        &&& forall|i: int| 0 <= i < n ==> (#[trigger] self.objects@[i]).valid(n)
        &&& forall|i: int|
            0 <= i < n && (#[trigger] self.objects@[i]).payload is Scope ==> self.objects@[i].payload->Scope_0.saved_scope
                < i
    }

    /// What every evaluation step keeps: the invariant, the current scope,
    /// every object allocated so far, and the prototype of each of them.
    pub open spec fn grows_from(self, old: Heap) -> bool {
        &&& self.wf()
        &&& self.scope == old.scope
        &&& old.objects@.len() <= self.objects@.len()
        &&& forall|i: int|
            0 <= i < old.objects@.len() ==> (#[trigger] self.objects@[i]).proto == old.objects@[i].proto
    }

    pub open spec fn valid(self, v: JSValue) -> bool {
        valid_value(v, self.len())
    }

    /// A fresh heap holding the global object and the built-ins.
    pub fn new() -> (r: Heap)
        ensures
            r.wf(),
            r.scope == GLOBAL,
            r.len() == FIRST_FREE,
            r.objects@[GLOBAL as int].proto == NULL,
            prop_value(r.objects@[ARRAY_PROTO as int].properties@, seq!['p', 'u', 's', 'h']) == Some(JSValue::Ref(ARRAY_PUSH)),
            r.objects@[ARRAY_PUSH as int].payload == Payload::Host(HostFn::ArrayPush),
            prop_value(r.objects@[GLOBAL as int].properties@, seq!['E', 'r', 'r', 'o', 'r']) == Some(JSValue::Ref(ERROR_CTOR)),
            r.objects@[ERROR_CTOR as int].payload == Payload::Host(HostFn::ErrorConstructor),
            prop_value(r.objects@[ERROR_CTOR as int].properties@, seq!['p', 'r', 'o', 't', 'o', 't', 'y', 'p', 'e']) == Some(JSValue::Ref(ERROR_PROTO)),
    {
        let mut objects: Vec<JSObject> = Vec::new();
        objects.push(JSObject::new(NULL));
        objects.push(JSObject::new(NULL));
        objects.push(JSObject::new(NULL));
        objects.push(JSObject::new(OBJECT_PROTO));
        objects.push(JSObject::with_payload(Payload::Host(HostFn::ArrayPush), OBJECT_PROTO));
        objects.push(JSObject::new(OBJECT_PROTO));
        objects.push(JSObject::with_payload(Payload::Host(HostFn::ErrorConstructor), OBJECT_PROTO));
        let mut heap = Heap { objects, scope: GLOBAL, loc: None };
        proof {
            assert forall|i: int| 0 <= i < heap.len() implies (#[trigger] heap.objects@[i]).valid(
                heap.len(),
            ) by {
                assert(heap.objects@[i].properties@.len() == 0);
            }
        }
        proof {
            reveal_strlit("push");
            reveal_strlit("name");
            reveal_strlit("Error");
            reveal_strlit("message");
            reveal_strlit("prototype");
            reveal_strlit("constructor");
            reveal_strlit("undefined");
            reveal_strlit("NaN");
        }
        proof {
            assert("push"@ =~= seq!['p', 'u', 's', 'h']);
            assert("Error"@ =~= seq!['E', 'r', 'r', 'o', 'r']);
            assert("prototype"@ =~= seq!['p', 'r', 'o', 't', 'o', 't', 'y', 'p', 'e']);
        }
        heap.define(ERROR_PROTO, String::from_str("name"), JSValue::from_str("Error"), Access::hidden());
        heap.define(ERROR_PROTO, String::from_str("message"), JSValue::from_str(""), Access::hidden());
        heap.define(ERROR_PROTO, String::from_str("constructor"), JSValue::Ref(ERROR_CTOR), Access::hidden());
        heap.define(GLOBAL, String::from_str("undefined"), JSValue::Undefined, Access::readonly());
        heap.define(GLOBAL, String::from_str("NaN"), JSValue::Number(Num::NaN), Access::readonly());
        heap.define(ARRAY_PROTO, String::from_str("push"), JSValue::Ref(ARRAY_PUSH), Access::hidden());
        heap.define(ERROR_CTOR, String::from_str("prototype"), JSValue::Ref(ERROR_PROTO), Access::readonly());
        heap.define(GLOBAL, String::from_str("Error"), JSValue::Ref(ERROR_CTOR), Access::hidden());
        heap
    }

    proof fn lemma_object_valid_mono(o: JSObject, n: nat, m: nat)
        requires
            o.valid(n),
            n <= m,
        ensures
            o.valid(m),
    {
        assert forall|j: int| 0 <= j < o.properties@.len() implies valid_value(
            (#[trigger] o.properties@[j]).1.value,
            m,
        ) by {
            assert(valid_value(o.properties@[j].1.value, n));
        }
        if let Payload::Array(items) = o.payload {
            assert forall|j: int| 0 <= j < items@.len() implies valid_value(#[trigger] items@[j], m) by {
                assert(valid_value(items@[j], n));
            }
        }
    }

    /// Appends an object and returns its index, which stays valid for the
    /// life of the heap.
    pub fn allocate(&mut self, object: JSObject) -> (id: ObjectId)
        requires
            old(self).wf(),
            object.valid(old(self).len() + 1),
            object.proto < old(self).len(),
            object.payload is Scope ==> object.payload->Scope_0.saved_scope < old(self).len(),
            old(self).len() + 1 <= usize::MAX,
        ensures
            id == old(self).len(),
            final(self).objects@ == old(self).objects@.push(object),
            final(self).scope == old(self).scope,
            final(self).loc == old(self).loc,
            final(self).wf(),
    {
        let id = self.objects.len();
        let ghost old_objects = self.objects@;
        self.objects.push(object);
        proof {
            let n = self.len();
            assert forall|i: int| 0 <= i < n implies (#[trigger] self.objects@[i]).valid(n) by {
                if i < old_objects.len() {
                    assert(old_objects[i].valid((n - 1) as nat));
                    Self::lemma_object_valid_mono(old_objects[i], (n - 1) as nat, n);
                }
            }
            assert forall|i: int| 1 <= i < n implies (#[trigger] self.objects@[i]).proto < i by {
                if i < old_objects.len() {
                    assert(old_objects[i].proto < i);
                }
            }
            assert forall|i: int|
                0 <= i < n && (#[trigger] self.objects@[i]).payload is Scope implies self.objects@[i].payload->Scope_0.saved_scope
                < i by {
                if i < old_objects.len() {
                    assert(old_objects[i] == self.objects@[i]);
                }
            }
        }
        id
    }

    /// The object `id`; the null reference is never dereferenced.
    pub fn get(&self, id: ObjectId) -> (r: &JSObject)
        requires
            id != NULL,
            id < self.len(),
        ensures
            *r == self.objects@[id as int],
    {
        &self.objects[id]
    }

    /// Assignment to a property of object `id` (see `JSObject::set_property`).
    pub fn set_property(&mut self, id: ObjectId, name: String, value: JSValue)
        requires
            old(self).wf(),
            1 <= id < old(self).len(),
            old(self).valid(value),
        ensures
            final(self).wf(),
            final(self).scope == old(self).scope,
            final(self).loc == old(self).loc,
            final(self).len() == old(self).len(),
            forall|i: int| 0 <= i < old(self).len() && i != id ==> final(self).objects@[i] == old(self).objects@[i],
            assigned(old(self).objects@[id as int], name, value, final(self).objects@[id as int]),
    {
        let ghost n = self.len();
        let ghost objs = self.objects@;
        proof {
            assert(objs[id as int].valid(n));
        }
        self.objects[id].set_property(name, value);
        proof {
            self.lemma_wf_after_update(objs, id as int);
        }
    }

    /// Gives object `id` an own property with the given flags (see
    /// `JSObject::define_own_property`).
    pub fn define(&mut self, id: ObjectId, name: String, value: JSValue, access: Access)
        requires
            old(self).wf(),
            1 <= id < old(self).len(),
            old(self).valid(value),
        ensures
            defined(*old(self), id as int, name@, value, access, *final(self)),
            final(self).wf(),
            final(self).scope == old(self).scope,
            final(self).loc == old(self).loc,
            final(self).len() == old(self).len(),
            forall|i: int| 0 <= i < old(self).len() && i != id ==> final(self).objects@[i] == old(self).objects@[i],
            final(self).objects@[id as int].proto == old(self).objects@[id as int].proto,
            final(self).objects@[id as int].payload == old(self).objects@[id as int].payload,
            prop_value(final(self).objects@[id as int].properties@, name@) == Some(value),
            forall|n: Seq<char>|
                n != name@ ==> #[trigger] prop_value(final(self).objects@[id as int].properties@, n) == prop_value(
                    old(self).objects@[id as int].properties@,
                    n,
                ),
            binds(final(self).objects@[id as int], name@),
            forall|n: Seq<char>| binds(old(self).objects@[id as int], n) ==> #[trigger] binds(final(self).objects@[id as int], n),
    {
        let ghost n = self.len();
        let ghost objs = self.objects@;
        proof {
            assert(objs[id as int].valid(n));
        }
        self.objects[id].define_own_property(name, value, access);
        proof {
            self.lemma_wf_after_update(objs, id as int);
            assert forall|n: Seq<char>| binds(objs[id as int], n) implies #[trigger] binds(self.objects@[id as int], n) by {
                let j = choose|j: int| 0 <= j < objs[id as int].properties@.len() && (#[trigger] objs[id as int].properties@[j]).0@ == n;
                assert(self.objects@[id as int].properties@[j].0@ == n);
            }
        }
    }

    /// Removes a configurable own property of object `id` (see `JSObject::delete`).
    pub fn delete(&mut self, id: ObjectId, name: &String) -> (r: bool)
        requires
            old(self).wf(),
            1 <= id < old(self).len(),
        ensures
            final(self).wf(),
            final(self).scope == old(self).scope,
            final(self).loc == old(self).loc,
            final(self).len() == old(self).len(),
            forall|i: int| 0 <= i < old(self).len() && i != id ==> final(self).objects@[i] == old(self).objects@[i],
            deleted(old(self).objects@[id as int], name@, r, final(self).objects@[id as int]),
    {
        let ghost n = self.len();
        let ghost objs = self.objects@;
        proof {
            assert(objs[id as int].valid(n));
        }
        let r = self.objects[id].delete(name);
        proof {
            self.lemma_wf_after_update(objs, id as int);
        }
        r
    }

    proof fn lemma_wf_after_update(self, objs: Seq<JSObject>, id: int)
        requires
            objs.len() == self.objects@.len(),
            FIRST_FREE <= objs.len(),
            1 <= self.scope < objs.len(),
            1 <= id < objs.len(),
            forall|i: int| 1 <= i < objs.len() ==> (#[trigger] objs[i]).proto < i,
            forall|i: int| 0 <= i < objs.len() ==> (#[trigger] objs[i]).valid(objs.len()),
            forall|i: int|
                0 <= i < objs.len() && (#[trigger] objs[i]).payload is Scope ==> objs[i].payload->Scope_0.saved_scope < i,
            forall|i: int| 0 <= i < objs.len() && i != id ==> self.objects@[i] == objs[i],
            self.objects@[id].proto == objs[id].proto,
            self.objects@[id].valid(objs.len()),
            self.objects@[id].payload is Scope ==> objs[id].payload is Scope
                && self.objects@[id].payload->Scope_0.saved_scope == objs[id].payload->Scope_0.saved_scope,
        ensures
            self.wf(),
    {
        let n = objs.len();
        assert forall|i: int| 1 <= i < n implies (#[trigger] self.objects@[i]).proto < i by {
            assert(objs[i].proto < i);
        }
        assert forall|i: int| 0 <= i < n implies (#[trigger] self.objects@[i]).valid(n) by {
            assert(objs[i].valid(n));
        }
        assert forall|i: int|
            0 <= i < n && (#[trigger] self.objects@[i]).payload is Scope implies self.objects@[i].payload->Scope_0.saved_scope
            < i by {
            assert(objs[i].payload is Scope);
        }
    }

    /// Looks `name` up on object `id` and then along its prototype chain.
    pub fn lookup_value(&self, id: ObjectId, name: &String) -> (r: Option<JSValue>)
        requires
            self.wf(),
            id < self.len(),
        ensures
            r matches Some(v) ==> self.valid(v),
            r == chain_value(self.objects@, id as int, name@),
    {
        let mut cur = id;
        while cur != NULL
            invariant
                self.wf(),
                cur < self.len(),
                cur != id ==> cur < id,
                chain_value(self.objects@, id as int, name@) == chain_value(self.objects@, cur as int, name@),
            decreases cur,
        {
            let own = self.objects[cur].get_own_value(name);
            proof {
                assert(self.objects@[cur as int].valid(self.len()));
            }
            match own {
                Some(v) => {
                    return Some(v);
                },
                None => {},
            }
            cur = self.objects[cur].proto;
        }
        None
    }

    /// The scope object that binds `name`: the current scope, then each
    /// lexically enclosing one, ending with the global object.
    pub fn lookup_var(&self, name: &String) -> (r: Option<ObjectId>)
        requires
            self.wf(),
        ensures
            r matches Some(id) ==> 1 <= id < self.len(),
            r matches Some(id) ==> binding_scope(self.objects@, self.scope as int, name@) == Some(id as int),
            r is None ==> binding_scope(self.objects@, self.scope as int, name@) is None,
    {
        let mut cur = self.scope;
        while cur != NULL
            invariant
                self.wf(),
                cur < self.len(),
                binding_scope(self.objects@, self.scope as int, name@) == binding_scope(self.objects@, cur as int, name@),
            decreases cur,
        {
            proof {
                assert(self.objects@[cur as int].valid(self.len()));
            }
            if self.objects[cur].has_own(name) {
                return Some(cur);
            }
            cur = match &self.objects[cur].payload {
                Payload::Scope(frame) => frame.saved_scope,
                _ => NULL,
            };
        }
        None
    }

    /// The receiver `this` of the current scope.
    pub fn interpret_this(&self) -> (r: JSValue)
        requires
            self.wf(),
        ensures
            self.valid(r),
            r == match self.objects@[self.scope as int].payload {
                Payload::Scope(f) => f.this_ref,
                _ => JSValue::Undefined,
            },
    {
        proof {
            assert(self.objects@[self.scope as int].valid(self.len()));
        }
        match &self.objects[self.scope].payload {
            Payload::Scope(frame) => frame.this_ref.dup(),
            _ => JSValue::Undefined,
        }
    }

    /// The value of a place: a member is read along the prototype chain. An
    /// unbound name of the global scope is a reference error; a missing
    /// property of any other object reads as `undefined`.
    pub fn to_value(&self, place: &Interpreted) -> (r: JSResult<JSValue>)
        requires
            self.wf(),
            valid_interpreted(*place, self.len()),
        ensures
            r matches Ok(v) ==> self.valid(v),
            place matches Interpreted::Value(v) ==> r == Ok::<JSValue, Exception>(*v),
            place matches Interpreted::Member { of, name } ==> match chain_value(self.objects@, *of as int, name@) {
                Some(v) => r == Ok::<JSValue, Exception>(v),
                None => if *of == GLOBAL { r matches Err(Exception::ReferenceError(_)) } else { r == Ok::<JSValue, Exception>(JSValue::Undefined) },
            },
            r matches Err(e) ==> e is ReferenceError,
    {
        match place {
            Interpreted::Value(v) => Ok(v.dup()),
            Interpreted::Member { of, name } => {
                match self.lookup_value(*of, name) {
                    Some(v) => Ok(v),
                    None => {
                        if *of == GLOBAL {
                            let mut msg = name.clone();
                            msg.append(" is not defined");
                            Err(Exception::ReferenceError(msg))
                        } else {
                            Ok(JSValue::Undefined)
                        }
                    },
                }
            },
        }
    }

    /// Writes `value` to a place; only a member can be written.
    pub fn put_value(&mut self, place: Interpreted, value: JSValue) -> (r: JSResult<()>)
        requires
            old(self).wf(),
            valid_interpreted(place, old(self).len()),
            old(self).valid(value),
        ensures
            final(self).wf(),
            final(self).scope == old(self).scope,
            final(self).len() == old(self).len(),
            r is Err <==> place is Value,
            r matches Err(e) ==> e is ReferenceError,
            final(self).grows_from(*old(self)),
            put_outcome(*old(self), place, value, *final(self), r),
    {
        match place {
            Interpreted::Value(_) => {
                proof { reveal_strlit("invalid assignment target"); }
                Err(Exception::ReferenceError(String::from_str("invalid assignment target")))
            },
            Interpreted::Member { of, name } => {
                self.set_property(of, name, value);
                Ok(())
            },
        }
    }

    /// `delete` on a place: true unless a property that had to go stayed.
    pub fn delete_place(&mut self, place: &Interpreted) -> (r: bool)
        requires
            old(self).wf(),
            valid_interpreted(*place, old(self).len()),
        ensures
            final(self).wf(),
            final(self).scope == old(self).scope,
            final(self).len() == old(self).len(),
            final(self).grows_from(*old(self)),
            place is Value ==> r,
            delete_outcome(*old(self), *place, *final(self), r),
    {
        match place {
            Interpreted::Value(_) => true,
            Interpreted::Member { of, name } => self.delete(*of, name),
        }
    }

    /// Conversion to a string. Arrays join their elements with commas,
    /// errors show their name and message, functions show as `function`, and
    /// other objects as `[object Object]`.
    pub fn stringify(&self, v: &JSValue) -> (r: String)
        requires
            self.wf(),
            self.valid(*v),
        ensures
            !(v is Ref) ==> r@ == primitive_text(*v),
            r@ == value_text(self.objects@, *v),
    {
        match v {
            JSValue::Ref(id) => self.object_text(*id),
            _ => primitive_string(v),
        }
    }

    fn object_text(&self, id: ObjectId) -> (r: String)
        requires
            self.wf(),
            1 <= id < self.len(),
        ensures
            r@ == object_text_spec(self.objects@, id as int),
    {
        proof {
            assert(self.objects@[id as int].valid(self.len()));
            reveal_strlit("[object Object]");
            reveal_strlit("function");
            reveal_strlit("Error");
            reveal_strlit("name");
            reveal_strlit("message");
            reveal_strlit(",");
            reveal_strlit(": ");
            assert("[object Object]"@ =~= object_object());
            assert("function"@ =~= function_word());
            assert("name"@ =~= seq!['n', 'a', 'm', 'e']);
            assert("message"@ =~= seq!['m', 'e', 's', 's', 'a', 'g', 'e']);
            assert("Error"@ =~= seq!['E', 'r', 'r', 'o', 'r']);
        }
        match &self.objects[id].payload {
            Payload::Array(items) => {
                let mut out = String::new();
                let mut i: usize = 0;
                while i < items.len()
                    invariant
                        self.wf(),
                        values_valid(items@, self.len()),
                        i <= items@.len(),
                        out@ == join_items(items@.take(i as int)),
                    decreases items@.len() - i,
                {
                    proof {
                        reveal_strlit("[object Object]");
                        reveal_strlit(",");
                        assert("[object Object]"@ =~= object_object());
                        assert(","@ =~= seq![',']);
                        assert(items@.take(i + 1).drop_last() =~= items@.take(i as int));
                        assert(items@.take(i + 1).last() == items@[i as int]);
                        if i == 0 {
                            assert(items@.take(0) =~= Seq::<JSValue>::empty());
                            assert(items@.take(1)[0] == items@[0]);
                        }
                    }
                    if i > 0 {
                        out.append(",");
                    }
                    let text = match &items[i] {
                        JSValue::Undefined => String::new(),
                        JSValue::Null => String::new(),
                        JSValue::Ref(_) => String::from_str("[object Object]"),
                        item => primitive_string(item),
                    };
                    out.append(text.as_str());
                    proof {
                        assert(text@ == item_text(items@[i as int]));
                        assert(out@ =~= join_items(items@.take(i + 1)));
                    }
                    i = i + 1;
                }
                proof {
                    assert(items@.take(items@.len() as int) =~= items@);
                }
                out
            },
            Payload::Str(s) => s.clone(),
            Payload::Closure(_) => String::from_str("function"),
            Payload::Host(_) => String::from_str("function"),
            Payload::Error => {
                let name = match self.lookup_value(id, &String::from_str("name")) {
                    Some(JSValue::String(s)) => s,
                    _ => String::from_str("Error"),
                };
                let message = match self.lookup_value(id, &String::from_str("message")) {
                    Some(JSValue::String(s)) => s,
                    _ => String::new(),
                };
                if message.unicode_len() == 0 {
                    name
                } else {
                    let mut out = name;
                    out.append(": ");
                    out.append(message.as_str());
                    proof {
                        assert(": "@ =~= seq![':', ' ']);
                    }
                    out
                }
            },
            _ => String::from_str("[object Object]"),
        }
    }

    /// Conversion to a number; objects convert to `NaN`.
    pub fn numberify(&self, v: &JSValue) -> (r: Num)
        ensures
            r == primitive_num(*v),
    {
        match v {
            JSValue::Undefined => Num::NaN,
            JSValue::Null => Num::Int(0),
            JSValue::Bool(b) => if *b {
                Num::Int(1)
            } else {
                Num::Int(0)
            },
            JSValue::Number(n) => *n,
            JSValue::String(s) => crate::text::string_to_num(s.as_str()),
            JSValue::Ref(_) => Num::NaN,
        }
    }

    /// What `typeof` answers.
    pub fn type_of(&self, v: &JSValue) -> (r: String)
        requires
            self.wf(),
            self.valid(*v),
        ensures
            r@ == typeof_text(self.objects@, *v),
    {
        proof {
            reveal_strlit("undefined");
            reveal_strlit("object");
            reveal_strlit("boolean");
            reveal_strlit("number");
            reveal_strlit("string");
            reveal_strlit("function");
            assert("undefined"@ =~= seq!['u', 'n', 'd', 'e', 'f', 'i', 'n', 'e', 'd']);
            assert("object"@ =~= seq!['o', 'b', 'j', 'e', 'c', 't']);
            assert("boolean"@ =~= seq!['b', 'o', 'o', 'l', 'e', 'a', 'n']);
            assert("number"@ =~= seq!['n', 'u', 'm', 'b', 'e', 'r']);
            assert("string"@ =~= seq!['s', 't', 'r', 'i', 'n', 'g']);
            assert("function"@ =~= function_word());
        }
        match v {
            JSValue::Undefined => String::from_str("undefined"),
            JSValue::Null => String::from_str("object"),
            JSValue::Bool(_) => String::from_str("boolean"),
            JSValue::Number(_) => String::from_str("number"),
            JSValue::String(_) => String::from_str("string"),
            JSValue::Ref(id) => match &self.objects[*id].payload {
                Payload::Closure(_) => String::from_str("function"),
                Payload::Host(_) => String::from_str("function"),
                _ => String::from_str("object"),
            },
        }
    }

    /// Allocates a scope whose receiver is `this_ref` and whose lexical parent is `parent`.
    pub fn new_scope(&mut self, this_ref: JSValue, parent: ObjectId) -> (id: ObjectId)
        requires
            old(self).wf(),
            old(self).valid(this_ref),
            1 <= parent < old(self).len(),
            old(self).len() + 1 <= usize::MAX,
        ensures
            final(self).grows_from(*old(self)),
            final(self).len() == old(self).len() + 1,
            forall|i: int| 0 <= i < old(self).len() ==> final(self).objects@[i] == old(self).objects@[i],
            id == old(self).len(),
            final(self).objects@[id as int].payload matches Payload::Scope(f) && f.saved_scope == parent && f.this_ref == this_ref
                && f.caller is None,
            final(self).objects@[id as int].properties@.len() == 0,
            final(self).loc == old(self).loc,
    {
        let frame = ScopeFrame { saved_scope: parent, this_ref, caller: None };
        self.allocate(JSObject::with_payload(Payload::Scope(frame), NULL))
    }

    /// Allocates an array holding `items`.
    pub fn new_array(&mut self, items: Vec<JSValue>) -> (id: ObjectId)
        requires
            old(self).wf(),
            values_valid(items@, old(self).len()),
            old(self).len() + 1 <= usize::MAX,
        ensures
            final(self).grows_from(*old(self)),
            final(self).len() == old(self).len() + 1,
            forall|i: int| 0 <= i < old(self).len() ==> final(self).objects@[i] == old(self).objects@[i],
            id == old(self).len(),
            final(self).objects@[id as int].payload == Payload::Array(items),
            final(self).objects@[id as int].proto == ARRAY_PROTO,
            final(self).objects@[id as int].properties@.len() == 0,
            final(self).objects@ == old(self).objects@.push(final(self).objects@[id as int]),
            final(self).loc == old(self).loc,
    {
        let ghost n = self.len();
        let obj = JSObject::with_payload(Payload::Array(items), ARRAY_PROTO);
        proof {
            assert forall|j: int| 0 <= j < items@.len() implies valid_value(#[trigger] items@[j], n + 1) by {
                assert(valid_value(items@[j], n));
            }
        }
        self.allocate(obj)
    }

    /// Allocates a plain object with the given prototype.
    pub fn new_object(&mut self, proto: ObjectId) -> (id: ObjectId)
        requires
            old(self).wf(),
            proto < old(self).len(),
            old(self).len() + 1 <= usize::MAX,
        ensures
            final(self).grows_from(*old(self)),
            final(self).len() == old(self).len() + 1,
            forall|i: int| 0 <= i < old(self).len() ==> final(self).objects@[i] == old(self).objects@[i],
            id == old(self).len(),
            final(self).objects@[id as int].proto == proto,
            final(self).objects@[id as int].payload is Plain,
            final(self).objects@[id as int].properties@.len() == 0,
            final(self).objects@ == old(self).objects@.push(final(self).objects@[id as int]),
            final(self).loc == old(self).loc,
    {
        self.allocate(JSObject::new(proto))
    }

    /// Allocates a function object for `function`, closing over the current
    /// scope, with a fresh `prototype` object whose hidden `constructor`
    /// links back to the function.
    pub fn new_function(&mut self, function: Rc<Function>) -> (id: ObjectId)
        requires
            old(self).wf(),
            old(self).len() + 2 <= usize::MAX,
        ensures
            final(self).grows_from(*old(self)),
            final(self).len() == old(self).len() + 2,
            forall|i: int| 0 <= i < old(self).len() ==> final(self).objects@[i] == old(self).objects@[i],
            id == old(self).len(),
            final(self).objects@[id as int].payload matches Payload::Closure(c) && c.captured_scope == old(self).scope,
            function_made(*old(self), function, *final(self)),
    {
        proof {
            reveal_strlit("prototype");
            reveal_strlit("constructor");
            assert("prototype"@ =~= seq!['p', 'r', 'o', 't', 'o', 't', 'y', 'p', 'e']);
            assert("constructor"@ =~= seq!['c', 'o', 'n', 's', 't', 'r', 'u', 'c', 't', 'o', 'r']);
        }
        let closure = Closure { function, captured_scope: self.scope };
        let id = self.allocate(JSObject::with_payload(Payload::Closure(closure), OBJECT_PROTO));
        let proto = self.new_object(OBJECT_PROTO);
        self.define(id, String::from_str("prototype"), JSValue::Ref(proto), Access::write_only());
        self.define(proto, String::from_str("constructor"), JSValue::Ref(id), Access::hidden());
        id
    }

    /// Allocates an error object with the given name and message.
    pub fn new_error(&mut self, name: String, message: String) -> (id: ObjectId)
        requires
            old(self).wf(),
            old(self).len() + 1 <= usize::MAX,
        ensures
            final(self).grows_from(*old(self)),
            final(self).len() == old(self).len() + 1,
            forall|i: int| 0 <= i < old(self).len() ==> final(self).objects@[i] == old(self).objects@[i],
            id == old(self).len(),
            final(self).objects@[id as int].payload is Error,
            final(self).objects@[id as int].proto == ERROR_PROTO,
            prop_value(final(self).objects@[id as int].properties@, seq!['n', 'a', 'm', 'e']) == Some(JSValue::String(name)),
            prop_value(final(self).objects@[id as int].properties@, seq!['m', 'e', 's', 's', 'a', 'g', 'e']) == Some(JSValue::String(message)),
    {
        proof {
            reveal_strlit("name");
            reveal_strlit("message");
            assert("name"@ =~= seq!['n', 'a', 'm', 'e']);
            assert("message"@ =~= seq!['m', 'e', 's', 's', 'a', 'g', 'e']);
        }
        let id = self.allocate(JSObject::with_payload(Payload::Error, ERROR_PROTO));
        self.define(id, String::from_str("message"), JSValue::String(message), Access::hidden());
        self.define(id, String::from_str("name"), JSValue::String(name), Access::hidden());
        id
    }

    /// Room for a few more objects.
    pub fn has_room(&self) -> (r: bool)
        ensures
            r == (self.len() + 8 < usize::MAX),
    {
        self.objects.len() < usize::MAX - 8
    }

    /// Appends `value` to the array `id`; the result is the new length.
    pub fn push_item(&mut self, id: ObjectId, value: JSValue) -> (r: usize)
        requires
            old(self).wf(),
            1 <= id < old(self).len(),
            old(self).objects@[id as int].payload is Array,
            old(self).valid(value),
        ensures
            final(self).wf(),
            final(self).scope == old(self).scope,
            final(self).len() == old(self).len(),
            final(self).objects@[id as int].payload matches Payload::Array(items) && items@ == old(
                self,
            ).objects@[id as int].payload->Array_0@.push(value) && r == items@.len(),
            forall|i: int| 0 <= i < old(self).len() ==> (#[trigger] final(self).objects@[i]).proto == old(self).objects@[i].proto,
    {
        let ghost n = self.len();
        let ghost objs = self.objects@;
        proof {
            assert(objs[id as int].valid(n));
        }
        self.objects[id].push_value(value);
        proof {
            self.lemma_wf_after_update(objs, id as int);
        }
        match &self.objects[id].payload {
            Payload::Array(items) => items.len(),
            _ => 0,
        }
    }

    /// Records in the scope `id` where the call that made it came from; an
    /// object that is not a scope is left as it is.
    pub fn set_caller(&mut self, id: ObjectId, caller: Location)
        requires
            old(self).wf(),
            1 <= id < old(self).len(),
        ensures
            final(self).objects@ == old(self).objects@.update(id as int, with_caller(old(self).objects@[id as int], caller)),
            final(self).scope == old(self).scope,
            final(self).loc == old(self).loc,
            final(self).wf(),
            final(self).grows_from(*old(self)),
    {
        let ghost n = self.len();
        let ghost objs = self.objects@;
        proof {
            assert(objs[id as int].valid(n));
        }
        if let Payload::Scope(frame) = &mut self.objects[id].payload {
            frame.caller = Some(caller);
        }
        proof {
            assert(self.objects@ =~= objs.update(id as int, with_caller(objs[id as int], caller)));
            self.lemma_wf_after_update(objs, id as int);
        }
    }
}

} // verus!
