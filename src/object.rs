use vstd::prelude::*;
use std::rc::Rc;
use crate::ast::Function;
use crate::number::Num;
use crate::source::Location;
use crate::number::num_of;
use crate::text::{decimal, index_name, parse_index};
use crate::value::{JSValue, ObjectId, valid_value};

verus! {

/// The three independent access flags of a property.
#[derive(Clone, Copy, Debug, PartialEq, Eq, Structural)]
pub struct Access {
    pub write: bool,
    pub enumerable: bool,
    pub configurable: bool,
}

impl Access {
    /// Writable, enumerable and configurable: what an assignment creates.
    pub fn all() -> (r: Access)
        ensures
            r == (Access { write: true, enumerable: true, configurable: true }),
    {
        Access { write: true, enumerable: true, configurable: true }
    }

    /// Writable and configurable, but left out of enumeration.
    pub fn hidden() -> (r: Access)
        ensures
            r == (Access { write: true, enumerable: false, configurable: true }),
    {
        Access { write: true, enumerable: false, configurable: true }
    }

    /// Writable and enumerable, but not removable.
    pub fn nonconf() -> (r: Access)
        ensures
            r == (Access { write: true, enumerable: true, configurable: false }),
    {
        Access { write: true, enumerable: true, configurable: false }
    }

    /// Only writable.
    pub fn write_only() -> (r: Access)
        ensures
            r == (Access { write: true, enumerable: false, configurable: false }),
    {
        Access { write: true, enumerable: false, configurable: false }
    }

    /// None of the three flags.
    pub fn readonly() -> (r: Access)
        ensures
            r == (Access { write: false, enumerable: false, configurable: false }),
    {
        Access { write: false, enumerable: false, configurable: false }
    }
}

/// A property: its value and its access flags.
#[derive(Clone, Debug)]
pub struct Property {
    pub value: JSValue,
    pub access: Access,
}

/// A function value of the language: its code and the scope it was created in.
#[derive(Clone, Debug)]
pub struct Closure {
    pub function: Rc<Function>,
    pub captured_scope: ObjectId,
}

/// The functions that the host provides.
#[derive(Clone, Copy, Debug, PartialEq, Eq, Structural)]
pub enum HostFn {
    /// `Array.prototype.push`
    ArrayPush,
    /// `Error`
    ErrorConstructor,
}

/// The bookkeeping of a scope object: the lexically enclosing scope, the
/// receiver `this`, and where the call that made it came from.
#[derive(Clone, Debug)]
pub struct ScopeFrame {
    pub saved_scope: ObjectId,
    pub this_ref: JSValue,
    pub caller: Option<Location>,
}

/// What an object holds besides its properties.
#[derive(Clone, Debug)]
pub enum Payload {
    Plain,
    Array(Vec<JSValue>),
    Str(String),
    Closure(Closure),
    Host(HostFn),
    Error,
    Scope(ScopeFrame),
}

/// An object of the heap.
#[derive(Clone, Debug)]
pub struct JSObject {
    /// The own properties, in the order they were created.
    pub properties: Vec<(String, Property)>,
    /// The prototype; 0 (the null reference) for none.
    pub proto: ObjectId,
    pub payload: Payload,
}

/// The object has an own property named `name` in its list.
pub open spec fn binds(o: JSObject, name: Seq<char>) -> bool {
    exists|j: int| 0 <= j < o.properties@.len() && (#[trigger] o.properties@[j]).0@ == name
}

pub open spec fn keys_unique(props: Seq<(String, Property)>) -> bool {
    forall|i: int, j: int|
        0 <= i < props.len() && 0 <= j < props.len() && i != j ==> (#[trigger] props[i]).0@
            != (#[trigger] props[j]).0@
}

pub open spec fn values_valid(vals: Seq<JSValue>, n: nat) -> bool {
    forall|j: int| 0 <= j < vals.len() ==> valid_value(#[trigger] vals[j], n)
}

pub open spec fn payload_valid(p: Payload, n: nat) -> bool {
    match p {
        Payload::Array(items) => values_valid(items@, n),
        Payload::Closure(c) => 1 <= c.captured_scope < n,
        Payload::Scope(f) => 1 <= f.saved_scope < n && valid_value(f.this_ref, n),
        _ => true,
    }
}

/// The name `length`.
pub open spec fn length_name() -> Seq<char> {
    seq!['l', 'e', 'n', 'g', 't', 'h']
}

pub fn length_key() -> (r: String)
    ensures
        r@ == length_name(),
{
    proof {
        reveal_strlit("length");
        assert("length"@ =~= length_name());
    }
    String::from_str("length")
}

/// Validity holds in every larger heap.
pub proof fn lemma_values_valid_mono(vals: Seq<JSValue>, n: nat, m: nat)
    requires
        values_valid(vals, n),
        n <= m,
    ensures
        values_valid(vals, m),
{
    assert forall|j: int| 0 <= j < vals.len() implies valid_value(#[trigger] vals[j], m) by {
        assert(valid_value(vals[j], n));
    }
}

/// The position of the own property named `name`, if any.
pub open spec fn key_pos(props: Seq<(String, Property)>, name: Seq<char>) -> Option<int> {
    if exists|j: int| 0 <= j < props.len() && (#[trigger] props[j]).0@ == name {
        Some(choose|j: int| 0 <= j < props.len() && (#[trigger] props[j]).0@ == name)
    } else {
        None
    }
}

pub open spec fn array_index(p: Payload, name: Seq<char>) -> Option<int> {
    match p {
        Payload::Array(items) => if exists|i: nat| i < items@.len() && decimal(i) == name {
            Some((choose|i: nat| i < items@.len() && decimal(i) == name) as int)
        } else {
            None
        },
        _ => None,
    }
}

/// The value of the own property named `name`, on a property list with unique keys.
pub open spec fn prop_value(props: Seq<(String, Property)>, name: Seq<char>) -> Option<JSValue> {
    match key_pos(props, name) {
        Some(j) => Some(props[j].1.value),
        None => None,
    }
}

/// The names that enumeration visits among `props`: the enumerable ones, in order.
pub open spec fn enumerable_names(props: Seq<(String, Property)>) -> Seq<Seq<char>>
    decreases props.len(),
{
    if props.len() == 0 {
        Seq::empty()
    } else {
        let rest = enumerable_names(props.drop_last());
        if props.last().1.access.enumerable {
            rest.push(props.last().0@)
        } else {
            rest
        }
    }
}

/// The decimal names of the indices below `len`.
pub open spec fn index_names(len: nat) -> Seq<Seq<char>> {
    Seq::new(len, |i: int| decimal(i as nat))
}

/// The names that enumeration visits on an object: its array indices first,
/// then its enumerable own properties in the order they were created.
pub open spec fn enumeration(o: JSObject) -> Seq<Seq<char>> {
    let indices = match o.payload {
        Payload::Array(items) => index_names(items@.len()),
        _ => Seq::empty(),
    };
    indices + enumerable_names(o.properties@)
}

/// Every name that enumeration visits is an array index or an enumerable property.
pub proof fn lemma_enumerable_names_enumerable(props: Seq<(String, Property)>, k: int)
    requires
        0 <= k < enumerable_names(props).len(),
    ensures
        exists|j: int|
            0 <= j < props.len() && (#[trigger] props[j]).0@ == enumerable_names(props)[k]
                && props[j].1.access.enumerable,
    decreases props.len(),
{
    let rest = enumerable_names(props.drop_last());
    if props.last().1.access.enumerable && k == rest.len() {
        assert(props[props.len() - 1].0@ == enumerable_names(props)[k]);
    } else {
        lemma_enumerable_names_enumerable(props.drop_last(), k);
        let j = choose|j: int|
            0 <= j < props.drop_last().len() && (#[trigger] props.drop_last()[j]).0@ == rest[k]
                && props.drop_last()[j].1.access.enumerable;
        assert(props[j] == props.drop_last()[j]);
    }
}

/// Enumeration visits no hidden property: every name it yields is an array
/// index below the array's length, or the name of an enumerable own property.
pub proof fn lemma_enumeration_only_enumerable(o: JSObject, k: int)
    requires
        0 <= k < enumeration(o).len(),
    ensures
        ({
            let count = match o.payload {
                Payload::Array(items) => items@.len() as int,
                _ => 0,
            };
            ||| (k < count && enumeration(o)[k] == decimal(k as nat))
            ||| (exists|j: int|
                0 <= j < o.properties@.len() && (#[trigger] o.properties@[j]).0@ == enumeration(o)[k]
                    && o.properties@[j].1.access.enumerable)
        }),
{
    let indices = match o.payload {
        Payload::Array(items) => index_names(items@.len()),
        _ => Seq::empty(),
    };
    if k >= indices.len() {
        assert(enumeration(o)[k] == enumerable_names(o.properties@)[k - indices.len()]);
        lemma_enumerable_names_enumerable(o.properties@, k - indices.len());
    }
}

/// A write to `name` leaves every other name's value as it was.
pub proof fn lemma_prop_value_other(p: Seq<(String, Property)>, q: Seq<(String, Property)>, name: Seq<char>, n: Seq<char>)
    requires
        keys_unique(p),
        keys_unique(q),
        p.len() <= q.len(),
        forall|k: int| 0 <= k < p.len() ==> (#[trigger] q[k]).0@ == p[k].0@,
        forall|k: int| 0 <= k < p.len() && p[k].0@ != name ==> #[trigger] q[k] == p[k],
        forall|k: int| p.len() <= k < q.len() ==> (#[trigger] q[k]).0@ == name,
        n != name,
    ensures
        prop_value(q, n) == prop_value(p, n),
{
    if exists|k: int| 0 <= k < p.len() && (#[trigger] p[k]).0@ == n {
        let k = choose|k: int| 0 <= k < p.len() && (#[trigger] p[k]).0@ == n;
        lemma_key_pos_unique(p, n, k);
        assert(q[k] == p[k]);
        lemma_key_pos_unique(q, n, k);
    } else {
        assert forall|k: int| 0 <= k < q.len() implies (#[trigger] q[k]).0@ != n by {
            if k < p.len() {
                assert(q[k].0@ == p[k].0@);
            }
        }
    }
}

proof fn lemma_key_pos_unique(props: Seq<(String, Property)>, name: Seq<char>, j: int)
    requires
        keys_unique(props),
        0 <= j < props.len(),
        props[j].0@ == name,
    ensures
        key_pos(props, name) == Some(j),
{
    let k = choose|k: int| 0 <= k < props.len() && (#[trigger] props[k]).0@ == name;
    assert(props[k].0@ == props[j].0@);
}

proof fn lemma_keys_unique_push(props: Seq<(String, Property)>, e: (String, Property))
    requires
        keys_unique(props),
        forall|j: int| 0 <= j < props.len() ==> (#[trigger] props[j]).0@ != e.0@,
    ensures
        keys_unique(props.push(e)),
{
    let q = props.push(e);
    assert forall|i: int, j: int|
        0 <= i < q.len() && 0 <= j < q.len() && i != j implies (#[trigger] q[i]).0@ != (
        #[trigger] q[j]).0@ by {
        if i < props.len() && j < props.len() {
            assert(q[i] == props[i] && q[j] == props[j]);
        } else if i < props.len() {
            assert(q[i] == props[i]);
        } else if j < props.len() {
            assert(q[j] == props[j]);
        }
    }
}

proof fn lemma_keys_unique_remove(props: Seq<(String, Property)>, r: int)
    requires
        keys_unique(props),
        0 <= r < props.len(),
    ensures
        keys_unique(props.remove(r)),
{
    let q = props.remove(r);
    assert forall|i: int, j: int|
        0 <= i < q.len() && 0 <= j < q.len() && i != j implies (#[trigger] q[i]).0@ != (
        #[trigger] q[j]).0@ by {
        let oi = if i < r { i } else { i + 1 };
        let oj = if j < r { j } else { j + 1 };
        assert(q[i] == props[oi]);
        assert(q[j] == props[oj]);
    }
}

/// The value of the own property `name` of an object: an array's `length`
/// and its elements below that length, a string's `length`, and otherwise
/// the property of that name.
pub open spec fn own_value(o: JSObject, name: Seq<char>) -> Option<JSValue> {
    match o.payload {
        Payload::Array(items) => if name == length_name() {
            Some(JSValue::Number(num_of(items@.len() as int)))
        } else {
            match index_name(name) {
                Some(i) => if i < items@.len() {
                    Some(items@[i as int])
                } else {
                    prop_value(o.properties@, name)
                },
                None => prop_value(o.properties@, name),
            }
        },
        Payload::Str(t) => if name == length_name() {
            Some(JSValue::Number(num_of(t@.len() as int)))
        } else {
            prop_value(o.properties@, name)
        },
        _ => prop_value(o.properties@, name),
    }
}

/// An array's `length` is the length of its storage, whatever was done to it:
/// the property is read from the storage itself.
pub proof fn lemma_array_length(o: JSObject)
    requires
        o.payload is Array,
    ensures
        own_value(o, length_name()) == Some(JSValue::Number(num_of(o.payload->Array_0@.len() as int))),
{
}

/// The elements of an array after element `i` is set to `value`: in place
/// if `i` is below the length, else after `undefined` up to `i`.
pub open spec fn set_items(items: Seq<JSValue>, i: nat, value: JSValue) -> Seq<JSValue> {
    if i < items.len() {
        items.update(i as int, value)
    } else {
        items + Seq::new((i - items.len()) as nat, |k: int| JSValue::Undefined) + seq![value]
    }
}

/// The own property named `name`, on a property list with unique keys.
pub open spec fn prop_entry(props: Seq<(String, Property)>, name: Seq<char>) -> Option<Property> {
    match key_pos(props, name) {
        Some(j) => Some(props[j].1),
        None => None,
    }
}

/// `delete` may not remove `name` from `o`: an array's `length`, or one of
/// its elements.
pub open spec fn delete_blocked(o: JSObject, name: Seq<char>) -> bool {
    match o.payload {
        Payload::Array(items) => name == length_name() || (index_name(name) matches Some(i) && i < items@.len()),
        _ => false,
    }
}

/// Whether `for-in` may visit `name` on `o` now: an array element in range,
/// or an enumerable own property.
pub open spec fn still_enum(o: JSObject, name: Seq<char>) -> bool {
    let listed = exists|j: int|
        0 <= j < o.properties@.len() && (#[trigger] o.properties@[j]).0@ == name && o.properties@[j].1.access.enumerable;
    match o.payload {
        Payload::Array(items) => (index_name(name) matches Some(i) && i < items@.len()) || listed,
        _ => listed,
    }
}

/// Every own name of `o`, as `for-in` meets them: its array indices first,
/// then its properties in the order they were created, enumerable or not.
pub open spec fn own_names(o: JSObject) -> Seq<Seq<char>> {
    let indices = match o.payload {
        Payload::Array(items) => index_names(items@.len()),
        _ => Seq::empty(),
    };
    indices + o.properties@.map_values(|p: (String, Property)| p.0@)
}

/// The property list after an assignment of `value` to `name`.
pub open spec fn write_spec(props: Seq<(String, Property)>, name: String, value: JSValue) -> Seq<(String, Property)> {
    match key_pos(props, name@) {
        Some(j) => if props[j].1.access.write {
            props.update(j, (props[j].0, Property { value, access: props[j].1.access }))
        } else {
            props
        },
        None => props.push((name, Property { value, access: Access { write: true, enumerable: true, configurable: true } })),
    }
}

impl JSObject {
    /// The well-formedness of an object in a heap of `n` slots: keys are
    /// unique and every value refers to an allocated object.
    pub open spec fn valid(self, n: nat) -> bool {
        &&& keys_unique(self.properties@)
        &&& forall|j: int|
            0 <= j < self.properties@.len() ==> valid_value(
                (#[trigger] self.properties@[j]).1.value,
                n,
            )
        &&& payload_valid(self.payload, n)
    }

    /// A plain object with the given prototype and no properties.
    pub fn new(proto: ObjectId) -> (r: JSObject)
        ensures
            r.properties@.len() == 0,
            r.proto == proto,
            r.payload is Plain,
    {
        JSObject { properties: Vec::new(), proto, payload: Payload::Plain }
    }

    /// An object with the given payload and prototype and no properties.
    pub fn with_payload(payload: Payload, proto: ObjectId) -> (r: JSObject)
        ensures
            r.properties@.len() == 0,
            r.proto == proto,
            r.payload == payload,
    {
        JSObject { properties: Vec::new(), proto, payload }
    }

    pub fn as_array(&self) -> (r: Option<&Vec<JSValue>>)
        ensures
            self.payload is Array <==> r is Some,
            r matches Some(v) ==> self.payload == Payload::Array(*v),
    {
        match &self.payload {
            Payload::Array(v) => Some(v),
            _ => None,
        }
    }

    pub fn as_string(&self) -> (r: Option<&String>)
        ensures
            self.payload is Str <==> r is Some,
            r matches Some(s) ==> self.payload == Payload::Str(*s),
    {
        match &self.payload {
            Payload::Str(s) => Some(s),
            _ => None,
        }
    }

    pub fn as_closure(&self) -> (r: Option<&Closure>)
        ensures
            self.payload is Closure <==> r is Some,
            r matches Some(c) ==> self.payload == Payload::Closure(*c),
    {
        match &self.payload {
            Payload::Closure(c) => Some(c),
            _ => None,
        }
    }

    /// The position of the own property named `name`.
    pub fn find(&self, name: &String) -> (r: Option<usize>)
        ensures
            r matches Some(j) ==> j < self.properties@.len() && self.properties@[j as int].0@ == name@,
            r is None ==> forall|j: int|
                0 <= j < self.properties@.len() ==> (#[trigger] self.properties@[j]).0@ != name@,
    {
        let n = self.properties.len();
        let mut i: usize = 0;
        while i < n
            invariant
                n == self.properties@.len(),
                i <= n,
                forall|j: int| 0 <= j < i ==> (#[trigger] self.properties@[j]).0@ != name@,
            decreases n - i,
        {
            if self.properties[i].0 == *name {
                return Some(i);
            }
            i = i + 1;
        }
        None
    }

    /// The value of the own property `name`: an array's `length` and
    /// elements, a string's `length`, or a property of the list.
    pub fn get_own_value(&self, name: &String) -> (r: Option<JSValue>)
        ensures
            forall|n: nat|
                #![trigger self.valid(n)]
                self.valid(n) ==> (r matches Some(v) ==> valid_value(v, n)),
            keys_unique(self.properties@) ==> r == own_value(*self, name@),
            self.payload matches Payload::Array(items) ==> (name@ == length_name()
                ==> r == Some(JSValue::Number(num_of(items@.len() as int)))),
    {
        let is_length = *name == length_key();
        match &self.payload {
            Payload::Array(items) => {
                if is_length {
                    return Some(JSValue::Number(Num::from_usize(items.len())));
                }
                match parse_index(name.as_str()) {
                    Some(i) => {
                        if i < items.len() {
                            return Some(items[i].dup());
                        }
                    },
                    None => {},
                }
            },
            Payload::Str(s) => {
                if is_length {
                    return Some(JSValue::Number(Num::from_usize(s.unicode_len())));
                }
            },
            _ => {},
        }
        match self.find(name) {
            Some(j) => {
                proof {
                    if keys_unique(self.properties@) {
                        lemma_key_pos_unique(self.properties@, name@, j as int);
                    }
                }
                Some(self.properties[j].1.value.dup())
            },
            None => None,
        }
    }

    /// Whether the object has an own property `name` (array elements and
    /// `length` included).
    pub fn has_own(&self, name: &String) -> (r: bool)
        ensures
            keys_unique(self.properties@) ==> r == (own_value(*self, name@) is Some),
    {
        self.get_own_value(name).is_some()
    }

    /// Assignment to an own property. An existing property is overwritten
    /// only if it is writable; a new one is created writable, enumerable and
    /// configurable. On an array, an index name writes the element (growing
    /// the array with `undefined` up to it) and `length` is left alone; so is
    /// a string's `length`.
    pub fn set_property(&mut self, name: String, value: JSValue)
        ensures
            final(self).proto == old(self).proto,
            forall|n: nat|
                #![trigger final(self).valid(n)]
                old(self).valid(n) && valid_value(value, n) ==> final(self).valid(n),
            old(self).payload is Array <==> final(self).payload is Array,
            !(old(self).payload is Array) ==> final(self).payload == old(self).payload,
            !(old(self).payload is Array) && !(old(self).payload is Str && name@ == length_name()) && keys_unique(old(self).properties@) ==> final(self).properties@ == write_spec(
                old(self).properties@,
                name,
                value,
            ),
            forall|j: int|
                0 <= j < old(self).properties@.len() && !(#[trigger] old(
                    self,
                ).properties@[j]).1.access.write ==> final(self).properties@[j] == old(
                    self,
                ).properties@[j],
            final(self).properties@.len() >= old(self).properties@.len(),
            old(self).payload is Array ==> if name@ == length_name() {
                *final(self) == *old(self)
            } else {
                match index_name(name@) {
                    Some(i) => final(self).properties == old(self).properties && final(self).payload
                        == Payload::Array(final(self).payload->Array_0) && final(self).payload->Array_0@
                        == set_items(old(self).payload->Array_0@, i, value),
                    None => final(self).payload == old(self).payload && (keys_unique(old(self).properties@)
                        ==> final(self).properties@ == write_spec(old(self).properties@, name, value)),
                }
            },
    {
        let is_length = name == length_key();
        if matches!(self.payload, Payload::Array(_)) {
            if is_length {
                return;
            }
            match parse_index(name.as_str()) {
                Some(i) => {
                    let ghost before = self.payload->Array_0@;
                    self.set_element(i, value);
                    proof {
                        assert(self.payload->Array_0@ =~= set_items(before, i as nat, value));
                    }
                    return;
                },
                None => {},
            }
        }
        if matches!(self.payload, Payload::Str(_)) && is_length {
            return;
        }
        self.write_property(name, value);
    }

    /// Writes the property list as an assignment does.
    fn write_property(&mut self, name: String, value: JSValue)
        ensures
            final(self).proto == old(self).proto,
            final(self).payload == old(self).payload,
            forall|n: nat|
                #![trigger final(self).valid(n)]
                old(self).valid(n) && valid_value(value, n) ==> final(self).valid(n),
            keys_unique(old(self).properties@) ==> final(self).properties@ == write_spec(
                old(self).properties@,
                name,
                value,
            ),
            forall|j: int|
                0 <= j < old(self).properties@.len() && !(#[trigger] old(
                    self,
                ).properties@[j]).1.access.write ==> final(self).properties@[j] == old(
                    self,
                ).properties@[j],
            final(self).properties@.len() >= old(self).properties@.len(),
    {
        let ghost props = self.properties@;
        match self.find(&name) {
            Some(j) => {
                proof {
                    if keys_unique(props) {
                        lemma_key_pos_unique(props, name@, j as int);
                    }
                }
                if self.properties[j].1.access.write {
                    let access = self.properties[j].1.access;
                    self.properties[j].1 = Property { value, access };
                    proof {
                        assert(self.properties@ =~= props.update(
                            j as int,
                            (props[j as int].0, Property { value, access }),
                        ));
                        assert forall|n: nat|
                            #![trigger self.valid(n)]
                            old(self).valid(n) && valid_value(value, n) implies self.valid(n) by {
                            assert forall|a: int, b: int|
                                0 <= a < self.properties@.len() && 0 <= b < self.properties@.len()
                                    && a != b implies (#[trigger] self.properties@[a]).0@ != (
                                #[trigger] self.properties@[b]).0@ by {
                                assert(props[a].0@ != props[b].0@);
                            }
                            assert forall|k: int|
                                0 <= k < self.properties@.len() implies valid_value(
                                (#[trigger] self.properties@[k]).1.value,
                                n,
                            ) by {
                                if k != j {
                                    assert(valid_value(props[k].1.value, n));
                                }
                            }
                        }
                    }
                }
            },
            None => {
                let entry = (name, Property { value, access: Access::all() });
                proof {
                    if keys_unique(props) {
                        lemma_keys_unique_push(props, entry);
                    }
                }
                self.properties.push(entry);
                proof {
                    assert forall|n: nat|
                        #![trigger self.valid(n)]
                        old(self).valid(n) && valid_value(value, n) implies self.valid(n) by {
                        assert forall|k: int|
                            0 <= k < self.properties@.len() implies valid_value(
                            (#[trigger] self.properties@[k]).1.value,
                            n,
                        ) by {
                            if k < props.len() {
                                assert(valid_value(props[k].1.value, n));
                            }
                        }
                    }
                }
            },
        }
    }

    /// Writes element `i` of an array, growing it with `undefined` up to `i`.
    fn set_element(&mut self, i: usize, value: JSValue)
        requires
            old(self).payload is Array,
        ensures
            final(self).proto == old(self).proto,
            final(self).properties == old(self).properties,
            final(self).payload is Array,
            forall|n: nat|
                #![trigger final(self).valid(n)]
                old(self).valid(n) && valid_value(value, n) ==> final(self).valid(n),
            ({
                let old_items = old(self).payload->Array_0@;
                let items = final(self).payload->Array_0@;
                &&& items.len() == if i < old_items.len() { old_items.len() as int } else { i + 1 }
                &&& items[i as int] == value
                &&& forall|k: int| 0 <= k < old_items.len() && k != i ==> items[k] == old_items[k]
                &&& forall|k: int| old_items.len() <= k < i ==> items[k] == JSValue::Undefined
            }),
    {
        let mut taken = Payload::Plain;
        std::mem::swap(&mut self.payload, &mut taken);
        let mut items = match taken {
            Payload::Array(v) => v,
            _ => Vec::new(),
        };
        let ghost old_items = items@;
        if i < items.len() {
            items.set(i, value);
        } else {
            while items.len() < i
                invariant
                    old_items.len() <= items@.len() <= i,
                    forall|k: int| 0 <= k < old_items.len() ==> items@[k] == old_items[k],
                    forall|k: int| old_items.len() <= k < items@.len() ==> items@[k] == JSValue::Undefined,
                decreases i - items@.len(),
            {
                items.push(JSValue::Undefined);
            }
            items.push(value);
        }
        self.payload = Payload::Array(items);
        proof {
            assert forall|n: nat|
                #![trigger self.valid(n)]
                old(self).valid(n) && valid_value(value, n) implies self.valid(n) by {
                assert forall|k: int| 0 <= k < items@.len() implies valid_value(#[trigger] items@[k], n) by {
                    if k < old_items.len() && k != i {
                        assert(valid_value(old_items[k], n));
                    }
                }
            }
        }
    }

    /// Creates the own property `name`, or gives an existing one the value
    /// and the flags, whatever its flags were.
    pub fn define_own_property(&mut self, name: String, value: JSValue, access: Access)
        ensures
            final(self).proto == old(self).proto,
            final(self).payload == old(self).payload,
            forall|n: nat|
                #![trigger final(self).valid(n)]
                old(self).valid(n) && valid_value(value, n) ==> final(self).valid(n),
            keys_unique(old(self).properties@) ==> keys_unique(final(self).properties@),
            keys_unique(old(self).properties@) ==> prop_value(final(self).properties@, name@) == Some(value),
            keys_unique(old(self).properties@) ==> prop_entry(final(self).properties@, name@) == Some(Property { value, access }),
            keys_unique(old(self).properties@) ==> forall|n: Seq<char>|
                n != name@ ==> #[trigger] prop_value(final(self).properties@, n) == prop_value(old(self).properties@, n),
            final(self).properties@.len() >= old(self).properties@.len(),
            forall|j: int|
                0 <= j < old(self).properties@.len() ==> (#[trigger] final(self).properties@[j]).0@
                    == old(self).properties@[j].0@,
            exists|j: int|
                0 <= j < final(self).properties@.len() && (#[trigger] final(self).properties@[j]).0@ == name@,
            keys_unique(old(self).properties@) ==> final(self).properties@ == match key_pos(
                old(self).properties@,
                name@,
            ) {
                Some(j) => old(self).properties@.update(j, (old(self).properties@[j].0, Property { value, access })),
                None => old(self).properties@.push((name, Property { value, access })),
            },
    {
        let ghost nm = name@;
        let ghost props = self.properties@;
        match self.find(&name) {
            Some(j) => {
                proof {
                    if keys_unique(props) {
                        lemma_key_pos_unique(props, name@, j as int);
                    }
                }
                self.properties[j].1 = Property { value, access };
                proof {
                    assert(self.properties@[j as int].0@ == nm);
                    assert(self.properties@ =~= props.update(
                        j as int,
                        (props[j as int].0, Property { value, access }),
                    ));
                    if keys_unique(props) {
                        assert forall|a: int, b: int|
                            0 <= a < self.properties@.len() && 0 <= b < self.properties@.len() && a
                                != b implies (#[trigger] self.properties@[a]).0@ != (
                            #[trigger] self.properties@[b]).0@ by {
                            assert(props[a].0@ != props[b].0@);
                        }
                        lemma_key_pos_unique(self.properties@, name@, j as int);
                    }
                    if keys_unique(props) {
                        assert forall|n: Seq<char>| n != nm implies #[trigger] prop_value(self.properties@, n) == prop_value(props, n) by {
                            lemma_prop_value_other(props, self.properties@, nm, n);
                        }
                    }
                    assert forall|n: nat|
                        #![trigger self.valid(n)]
                        old(self).valid(n) && valid_value(value, n) implies self.valid(n) by {
                        assert forall|a: int, b: int|
                            0 <= a < self.properties@.len() && 0 <= b < self.properties@.len() && a
                                != b implies (#[trigger] self.properties@[a]).0@ != (
                            #[trigger] self.properties@[b]).0@ by {
                            assert(props[a].0@ != props[b].0@);
                        }
                        assert forall|k: int|
                            0 <= k < self.properties@.len() implies valid_value(
                            (#[trigger] self.properties@[k]).1.value,
                            n,
                        ) by {
                            if k != j {
                                assert(valid_value(props[k].1.value, n));
                            }
                        }
                    }
                }
            },
            None => {
                let entry = (name, Property { value, access });
                proof {
                    if keys_unique(props) {
                        lemma_keys_unique_push(props, entry);
                    }
                }
                self.properties.push(entry);
                proof {
                    assert(self.properties@[props.len() as int].0@ == nm);
                    if keys_unique(props) {
                        lemma_key_pos_unique(self.properties@, name@, props.len() as int);
                    }
                    if keys_unique(props) {
                        assert forall|n: Seq<char>| n != nm implies #[trigger] prop_value(self.properties@, n) == prop_value(props, n) by {
                            lemma_prop_value_other(props, self.properties@, nm, n);
                        }
                    }
                    assert forall|n: nat|
                        #![trigger self.valid(n)]
                        old(self).valid(n) && valid_value(value, n) implies self.valid(n) by {
                        assert forall|k: int|
                            0 <= k < self.properties@.len() implies valid_value(
                            (#[trigger] self.properties@[k]).1.value,
                            n,
                        ) by {
                            if k < props.len() {
                                assert(valid_value(props[k].1.value, n));
                            }
                        }
                    }
                }
            },
        }
    }

    /// A bookkeeping property, left out of enumeration.
    pub fn set_hidden(&mut self, name: String, value: JSValue)
        ensures
            final(self).proto == old(self).proto,
            final(self).payload == old(self).payload,
            forall|n: nat|
                #![trigger final(self).valid(n)]
                old(self).valid(n) && valid_value(value, n) ==> final(self).valid(n),
            keys_unique(old(self).properties@) ==> prop_value(final(self).properties@, name@) == Some(value),
    {
        self.define_own_property(name, value, Access::hidden());
    }

    /// A property that `delete` cannot remove.
    pub fn set_nonconf(&mut self, name: String, value: JSValue)
        ensures
            final(self).proto == old(self).proto,
            final(self).payload == old(self).payload,
            forall|n: nat|
                #![trigger final(self).valid(n)]
                old(self).valid(n) && valid_value(value, n) ==> final(self).valid(n),
            keys_unique(old(self).properties@) ==> prop_value(final(self).properties@, name@) == Some(value),
    {
        self.define_own_property(name, value, Access::nonconf());
    }

    /// Removes the own property `name` if it is configurable. The result is
    /// false exactly when a property stays that `delete` had to remove: a
    /// non-configurable one, or an array's element or `length`.
    pub fn delete(&mut self, name: &String) -> (r: bool)
        ensures
            final(self).proto == old(self).proto,
            final(self).payload == old(self).payload,
            forall|n: nat| #![trigger final(self).valid(n)] old(self).valid(n) ==> final(self).valid(n),
            delete_blocked(*old(self), name@) ==> !r && *final(self) == *old(self),
            keys_unique(old(self).properties@) && !delete_blocked(*old(self), name@) ==> match key_pos(old(self).properties@, name@) {
                Some(j) => if old(self).properties@[j].1.access.configurable {
                    r && final(self).properties@ == old(self).properties@.remove(j)
                } else {
                    !r && final(self).properties@ == old(self).properties@
                },
                None => r && final(self).properties@ == old(self).properties@,
            },
            forall|j: int|
                0 <= j < old(self).properties@.len() && !(#[trigger] old(self).properties@[j]).1.access.configurable
                    ==> final(self).properties@.contains(old(self).properties@[j]),
    {
        let ghost props = self.properties@;
        if let Payload::Array(items) = &self.payload {
            if *name == length_key() {
                return false;
            }
            if let Some(i) = parse_index(name.as_str()) {
                if i < items.len() {
                    return false;
                }
            }
        }
        match self.find(name) {
            Some(j) => {
                proof {
                    if keys_unique(props) {
                        lemma_key_pos_unique(props, name@, j as int);
                    }
                }
                if self.properties[j].1.access.configurable {
                    let _removed = self.properties.remove(j);
                    proof {
                        if keys_unique(props) {
                            lemma_keys_unique_remove(props, j as int);
                        }
                        assert forall|k: int|
                            0 <= k < props.len() && !(#[trigger] props[k]).1.access.configurable
                            implies self.properties@.contains(props[k]) by {
                            if k < j {
                                assert(self.properties@[k] == props[k]);
                            } else {
                                assert(self.properties@[k - 1] == props[k]);
                            }
                        }
                        assert forall|n: nat|
                            #![trigger self.valid(n)]
                            old(self).valid(n) implies self.valid(n) by {
                            assert forall|k: int|
                                0 <= k < self.properties@.len() implies valid_value(
                                (#[trigger] self.properties@[k]).1.value,
                                n,
                            ) by {
                                if k < j {
                                    assert(self.properties@[k] == props[k]);
                                    assert(valid_value(props[k].1.value, n));
                                } else {
                                    assert(self.properties@[k] == props[k + 1]);
                                    assert(valid_value(props[k + 1].1.value, n));
                                }
                            }
                        }
                    }
                    true
                } else {
                    proof {
                        assert forall|k: int|
                            0 <= k < props.len() && !(#[trigger] props[k]).1.access.configurable
                            implies self.properties@.contains(props[k]) by {
                            assert(self.properties@[k] == props[k]);
                        }
                    }
                    false
                }
            },
            None => {
                proof {
                    assert forall|k: int|
                        0 <= k < props.len() && !(#[trigger] props[k]).1.access.configurable
                        implies self.properties@.contains(props[k]) by {
                        assert(self.properties@[k] == props[k]);
                    }
                }
                true
            },
        }
    }

    /// The names that `for-in` visits on this object, in order: array
    /// indices first, then the enumerable own properties as they were created.
    pub fn enumerable_keys(&self) -> (r: Vec<String>)
        ensures
            r@.map_values(|s: String| s@) == enumeration(*self),
    {
        let mut out: Vec<String> = Vec::new();
        if let Payload::Array(items) = &self.payload {
            let len = items.len();
            let mut i: usize = 0;
            while i < len
                invariant
                    len == items@.len(),
                    i <= len,
                    out@.map_values(|s: String| s@) =~= index_names(i as nat),
                decreases len - i,
            {
                let ghost before = out@;
                let text = crate::text::decimal_string(i as u64);
                out.push(text);
                proof {
                    assert(out@.map_values(|s: String| s@) =~= before.map_values(|s: String| s@).push(text@));
                    assert(index_names((i + 1) as nat) =~= index_names(i as nat).push(decimal(i as nat)));
                }
                i = i + 1;
            }
        }
        let ghost indices = out@.map_values(|s: String| s@);
        let n = self.properties.len();
        let mut j: usize = 0;
        while j < n
            invariant
                n == self.properties@.len(),
                j <= n,
                out@.map_values(|s: String| s@) =~= indices + enumerable_names(self.properties@.take(j as int)),
            decreases n - j,
        {
            proof {
                assert(self.properties@.take(j + 1).drop_last() =~= self.properties@.take(j as int));
            }
            let ghost before = out@;
            if self.properties[j].1.access.enumerable {
                let key = self.properties[j].0.clone();
                out.push(key);
                proof {
                    assert(out@.map_values(|s: String| s@) =~= before.map_values(|s: String| s@).push(key@));
                }
            }
            proof {
                let t = self.properties@.take(j + 1);
                assert(t.last() == self.properties@[j as int]);
            }
            j = j + 1;
        }
        proof {
            assert(self.properties@.take(n as int) =~= self.properties@);
        }
        out
    }

    /// Appends an element to an array.
    pub fn push_value(&mut self, value: JSValue)
        requires
            old(self).payload is Array,
        ensures
            final(self).proto == old(self).proto,
            final(self).properties == old(self).properties,
            final(self).payload matches Payload::Array(items) && items@ == old(self).payload->Array_0@.push(value),
            forall|n: nat|
                #![trigger final(self).valid(n)]
                old(self).valid(n) && valid_value(value, n) ==> final(self).valid(n),
    {
        let len = match &self.payload {
            Payload::Array(items) => items.len(),
            _ => 0,
        };
        let ghost before = self.payload->Array_0@;
        self.set_element(len, value);
        proof {
            assert(self.payload->Array_0@ =~= before.push(value));
        }
    }

    /// Whether `for-in` may still visit `name` here: an array index in
    /// range, or an enumerable own property.
    pub fn still_enumerable(&self, name: &String) -> (r: bool)
        ensures
            keys_unique(self.properties@) && !(self.payload is Array) ==> (r <==> exists|j: int|
                0 <= j < self.properties@.len() && (#[trigger] self.properties@[j]).0@ == name@
                    && self.properties@[j].1.access.enumerable),
            keys_unique(self.properties@) ==> r == still_enum(*self, name@),
    {
        if let Payload::Array(items) = &self.payload {
            if let Some(i) = parse_index(name.as_str()) {
                if i < items.len() {
                    return true;
                }
            }
        }
        match self.find(name) {
            Some(j) => {
                let r = self.properties[j].1.access.enumerable;
                proof {
                    if keys_unique(self.properties@) && !r {
                        assert forall|k: int|
                            0 <= k < self.properties@.len() && (#[trigger] self.properties@[k]).0@ == name@
                                implies !self.properties@[k].1.access.enumerable by {
                            if k != j {
                                assert(self.properties@[k].0@ != self.properties@[j as int].0@);
                            }
                        }
                    }
                }
                r
            },
            None => false,
        }
    }

    /// Every own name, as `for-in` meets them (see `own_names`).
    pub fn own_keys(&self) -> (r: Vec<String>)
        ensures
            r@.map_values(|s: String| s@) == own_names(*self),
    {
        let mut out: Vec<String> = Vec::new();
        if let Payload::Array(items) = &self.payload {
            let len = items.len();
            let mut i: usize = 0;
            while i < len
                invariant
                    len == items@.len(),
                    i <= len,
                    out@.map_values(|s: String| s@) =~= index_names(i as nat),
                decreases len - i,
            {
                let ghost before = out@;
                let text = crate::text::decimal_string(i as u64);
                out.push(text);
                proof {
                    assert(out@.map_values(|s: String| s@) =~= before.map_values(|s: String| s@).push(text@));
                    assert(index_names((i + 1) as nat) =~= index_names(i as nat).push(decimal(i as nat)));
                }
                i = i + 1;
            }
        }
        let ghost indices = out@.map_values(|s: String| s@);
        let n = self.properties.len();
        let mut j: usize = 0;
        while j < n
            invariant
                n == self.properties@.len(),
                j <= n,
                out@.map_values(|s: String| s@) =~= indices + self.properties@.take(j as int).map_values(|p: (String, Property)| p.0@),
            decreases n - j,
        {
            let ghost before = out@;
            let key = self.properties[j].0.clone();
            out.push(key);
            proof {
                assert(out@.map_values(|s: String| s@) =~= before.map_values(|s: String| s@).push(key@));
                assert(self.properties@.take(j + 1).map_values(|p: (String, Property)| p.0@)
                    =~= self.properties@.take(j as int).map_values(|p: (String, Property)| p.0@).push(key@));
            }
            j = j + 1;
        }
        proof {
            assert(self.properties@.take(n as int) =~= self.properties@);
        }
        out
    }
}

} // verus!
