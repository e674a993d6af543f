use vstd::prelude::*;
use std::rc::Rc;
use crate::ast::{
    ArrayExpression, AssignmentExpression, BinOp, BinaryExpression, BlockStatement, BoolOp,
    BreakStatement, CallExpression, CatchClause, ConditionalExpression, ContinueStatement, Expr,
    Expression, ExpressionStatement, ForInStatement, ForInTarget, ForStatement, Function,
    FunctionDeclaration, FunctionExpression, Identifier, IfStatement, JSON, LabelStatement,
    Literal, LogicalExpression, MemberExpression, NewExpression, ObjectExpression, ObjectKey,
    Program, ReturnStatement, SequenceExpression, Statement, Stmt, SwitchStatement,
    ThrowStatement, TryStatement, UnOp, UnaryExpression, UpdOp, UpdateExpression,
    VariableDeclaration,
};
use crate::heap::{Heap, GLOBAL, NULL, OBJECT_PROTO, binding_scope, chain_value, primitive_num, primitive_text, value_text};
use crate::number::{Num, add_spec};
use crate::object::{Access, HostFn, JSObject, Payload, binds, key_pos, own_value, prop_value, values_valid, lemma_values_valid_mono};
use crate::value::{
    truthy,
    Exception, Interpreted, JSResult, JSValue, Jump, ObjectId, valid_exception, valid_interpreted,
    valid_value,
};

verus! {

/// The nesting budget of a fresh evaluation.
pub const DEFAULT_FUEL: u64 = 4000;
/// The most iterations one loop may run.
pub const LOOP_LIMIT: u64 = 100_000_000;

/// What an evaluation step leaves: the heap's invariant and scope, and a
/// result that refers to allocated objects only.
pub open spec fn step(old: Heap, new: Heap, r: JSResult<Interpreted>) -> bool {
    &&& new.grows_from(old)
    &&& match r {
        Ok(i) => valid_interpreted(i, new.len()),
        Err(e) => valid_exception(e, new.len()),
    }
}

/// `step` for a rule that yields a value.
pub open spec fn value_step(old: Heap, new: Heap, r: JSResult<JSValue>) -> bool {
    &&& new.grows_from(old)
    &&& match r {
        Ok(v) => valid_value(v, new.len()),
        Err(e) => valid_exception(e, new.len()),
    }
}

/// `step` for a rule that yields nothing.
pub open spec fn unit_step(old: Heap, new: Heap, r: JSResult<()>) -> bool {
    &&& new.grows_from(old)
    &&& match r {
        Ok(_) => true,
        Err(e) => valid_exception(e, new.len()),
    }
}

/// The error of an evaluation that has used up its nesting budget.
pub fn out_of_fuel() -> (e: Exception)
    ensures
        e is RangeError,
{
    Exception::RangeError(String::from_str("evaluation nested too deeply"))
}

fn out_of_memory() -> (e: Exception)
    ensures
        e is RangeError,
{
    Exception::RangeError(String::from_str("heap exhausted"))
}

fn loop_limit() -> (e: Exception)
    ensures
        e is RangeError,
{
    Exception::RangeError(String::from_str("loop ran too long"))
}

fn type_error(msg: &str) -> (e: Exception)
    ensures
        e is TypeError,
{
    Exception::TypeError(String::from_str(msg))
}

/// Two optional labels are the same label.
fn same_label(a: &Option<Identifier>, b: &Identifier) -> (r: bool)
    ensures
        r == (a matches Some(x) && x.0@ == b.0@),
{
    match a {
        Some(x) => x.0 == b.0,
        None => false,
    }
}

/// The name an error object gets for a diagnostic: its kind.
pub open spec fn error_kind_name(e: Exception) -> Seq<char> {
    match e {
        Exception::TypeError(_) => seq!['T', 'y', 'p', 'e', 'E', 'r', 'r', 'o', 'r'],
        Exception::ReferenceError(_) => seq!['R', 'e', 'f', 'e', 'r', 'e', 'n', 'c', 'e', 'E', 'r', 'r', 'o', 'r'],
        Exception::RangeError(_) => seq!['R', 'a', 'n', 'g', 'e', 'E', 'r', 'r', 'o', 'r'],
        _ => seq!['S', 'y', 'n', 't', 'a', 'x', 'E', 'r', 'r', 'o', 'r'],
    }
}

/// The message a diagnostic error carries.
pub open spec fn diagnostic_message(e: Exception) -> Option<String> {
    match e {
        Exception::TypeError(m) => Some(m),
        Exception::ReferenceError(m) => Some(m),
        Exception::SyntaxTreeError(m) => Some(m),
        Exception::RangeError(m) => Some(m),
        _ => None,
    }
}

/// What a `catch` clause receives for `exc` (see `Heap::caught_value`).
pub open spec fn caught_outcome(h: Heap, exc: Exception, h2: Heap, r: JSResult<JSValue>) -> bool {
    &&& (!(r matches Err(Exception::Jump(_))))
    &&& (value_step(h, h2, r))
    &&& (exc matches Exception::UserThrown(v) ==> r == Ok::<JSValue, Exception>(v))
    &&& (!(exc is UserThrown) && r is Ok ==> (r->Ok_0 matches JSValue::Ref(id) && h.len() <= id
        && h2.objects@[id as int].payload is Error
        && h2.objects@[id as int].proto == crate::heap::ERROR_PROTO
        && (prop_value(h2.objects@[id as int].properties@, seq!['n', 'a', 'm', 'e']) matches Some(JSValue::String(k))
            && k@ == error_kind_name(exc))
        && (diagnostic_message(exc) matches Some(m) ==> prop_value(
            h2.objects@[id as int].properties@,
            seq!['m', 'e', 's', 's', 'a', 'g', 'e'],
        ) == Some(JSValue::String(m)))))
    &&& (h.len() + 8 < usize::MAX ==> r is Ok)
}

/// Relies on `Rc::clone`: the clone points to the same function as `f`.
#[verifier::external_body]
fn share_function(f: &Rc<Function>) -> (r: Rc<Function>)
    ensures
        r == *f,
{
    Rc::clone(f)
}

/// The value of a function call, given the outcome of its body: normal
/// completion gives `undefined`, a `return` gives its value, a `break` or
/// `continue` that escapes the body is an error, and any other exception
/// passes on.
pub fn function_completion(result: JSResult<Interpreted>) -> (r: JSResult<JSValue>)
    ensures
        completion_post(result, r),
{
    match result {
        Ok(_) => Ok(JSValue::Undefined),
        Err(Exception::Jump(Jump::Return(v))) => Ok(v),
        Err(Exception::Jump(_)) => Err(Exception::SyntaxTreeError(String::from_str("break or continue outside a loop"))),
        Err(e) => Err(e),
    }
}

/// The outcome of a statement labelled `label`, given the outcome of its
/// body: a `break` to the label completes it normally, a `continue` to it
/// (which only a loop can take) is an error, and anything else passes on.
pub fn label_completion(result: JSResult<Interpreted>, label: &Identifier) -> (r: JSResult<Interpreted>)
    ensures
        label_post(result, *label, r),
{
    match result {
        Err(Exception::Jump(Jump::Break(target))) => {
            if same_label(&target, label) {
                Ok(Interpreted::void())
            } else {
                Err(Exception::Jump(Jump::Break(target)))
            }
        },
        Err(Exception::Jump(Jump::Continue(target))) => {
            if same_label(&target, label) {
                Err(Exception::SyntaxTreeError(String::from_str("continue to a label that is not a loop")))
            } else {
                Err(Exception::Jump(Jump::Continue(target)))
            }
        },
        other => other,
    }
}

/// What `label_completion` gives.
pub open spec fn label_post(result: JSResult<Interpreted>, label: Identifier, r: JSResult<Interpreted>) -> bool {
    match result {
        Err(Exception::Jump(Jump::Break(Some(t)))) => if t.0@ == label.0@ {
            r == Ok::<Interpreted, Exception>(Interpreted::Value(JSValue::Undefined))
        } else {
            r == result
        },
        Err(Exception::Jump(Jump::Continue(Some(t)))) => if t.0@ == label.0@ {
            r matches Err(Exception::SyntaxTreeError(_))
        } else {
            r == result
        },
        _ => r == result,
    }
}

/// What a loop does after its body: go on, or stop with a result.
pub enum LoopControl {
    Next,
    Exit(JSResult<Interpreted>),
}

/// Whether the jump target `t` names the loop's label.
pub open spec fn aims_at(t: Option<Identifier>, label: Option<&Identifier>) -> bool {
    t is None || (label matches Some(l) && t->Some_0.0@ == l.0@)
}

/// What a loop labelled `label` does with the outcome of its body.
pub open spec fn loop_control(result: JSResult<Interpreted>, label: Option<&Identifier>) -> LoopControl {
    match result {
        Ok(_) => LoopControl::Next,
        Err(Exception::Jump(Jump::Continue(t))) => if aims_at(t, label) {
            LoopControl::Next
        } else {
            LoopControl::Exit(result)
        },
        Err(Exception::Jump(Jump::Break(t))) => if aims_at(t, label) {
            LoopControl::Exit(Ok(Interpreted::Value(JSValue::Undefined)))
        } else {
            LoopControl::Exit(result)
        },
        Err(_) => LoopControl::Exit(result),
    }
}

/// How a loop labelled `label` (if any) treats the outcome of its body:
/// `continue` to it goes on, `break` to it ends the loop normally, and
/// anything else leaves the loop.
pub fn loop_outcome(result: JSResult<Interpreted>, label: Option<&Identifier>) -> (r: LoopControl)
    ensures
        r matches LoopControl::Exit(Err(e)) ==> result == Err::<Interpreted, Exception>(e),
        r matches LoopControl::Exit(Ok(v)) ==> v == Interpreted::Value(JSValue::Undefined),
        r == loop_control(result, label),
{
    match result {
        Ok(_) => LoopControl::Next,
        Err(Exception::Jump(Jump::Continue(target))) => {
            match (&target, label) {
                (None, _) => LoopControl::Next,
                (Some(t), Some(l)) => {
                    if t.0 == l.0 {
                        LoopControl::Next
                    } else {
                        LoopControl::Exit(Err(Exception::Jump(Jump::Continue(target))))
                    }
                },
                _ => LoopControl::Exit(Err(Exception::Jump(Jump::Continue(target)))),
            }
        },
        Err(Exception::Jump(Jump::Break(target))) => {
            match (&target, label) {
                (None, _) => LoopControl::Exit(Ok(Interpreted::void())),
                (Some(t), Some(l)) => {
                    if t.0 == l.0 {
                        LoopControl::Exit(Ok(Interpreted::void()))
                    } else {
                        LoopControl::Exit(Err(Exception::Jump(Jump::Break(target))))
                    }
                },
                _ => LoopControl::Exit(Err(Exception::Jump(Jump::Break(target)))),
            }
        },
        Err(e) => LoopControl::Exit(Err(e)),
    }
}

/// The value a literal denotes.
pub open spec fn json_value(j: JSON) -> JSValue {
    match j {
        JSON::Null => JSValue::Null,
        JSON::Bool(b) => JSValue::Bool(b),
        JSON::Number(n) => JSValue::Number(n),
        JSON::String(s) => JSValue::String(s),
    }
}

/// The receiver of the current scope.
pub open spec fn this_value(heap: Heap) -> JSValue {
    match heap.objects@[heap.scope as int].payload {
        Payload::Scope(f) => f.this_ref,
        _ => JSValue::Undefined,
    }
}

impl JSON {
    /// The value a literal denotes.
    pub fn to_value(&self) -> (r: JSValue)
        ensures
            r == json_value(*self),
    {
        match self {
            JSON::Null => JSValue::Null,
            JSON::Bool(b) => JSValue::Bool(*b),
            JSON::Number(n) => JSValue::Number(*n),
            JSON::String(s) => JSValue::String(s.clone()),
        }
    }
}

impl Heap {
    /// Declares names in the current scope: each variable not yet bound
    /// there as `undefined`, each function as a closure over this scope.
    pub fn declare(&mut self, vars: &Vec<Identifier>, funcs: &Vec<FunctionDeclaration>) -> (r: JSResult<()>)
        requires
            old(self).wf(),
        ensures
            unit_step(*old(self), *final(self), r),
            !(r matches Err(Exception::Jump(_))),
            declare_outcome(*old(self), vars@, funcs@, *final(self), r),
            r is Ok && !(old(self).objects@[old(self).scope as int].payload is Array)
                && !(old(self).objects@[old(self).scope as int].payload is Str) ==> {
                let s = final(self).objects@[final(self).scope as int];
                &&& forall|k: int| 0 <= k < vars@.len() ==> binds(s, #[trigger] vars@[k].0@)
                &&& forall|k: int| 0 <= k < funcs@.len() ==> binds(s, #[trigger] funcs@[k].id.0@)
            },
    {
        let scope = self.scope;
        let ghost plain = !(self.objects@[scope as int].payload is Array) && !(self.objects@[scope as int].payload is Str);
        let mut i: usize = 0;
        while i < vars.len()
            invariant
                self.grows_from(*old(self)),
                self.scope == scope,
                i <= vars@.len(),
                self.len() == old(self).len(),
                self.objects@[scope as int].payload == old(self).objects@[scope as int].payload,
                scope == old(self).scope,
                plain == (!(old(self).objects@[scope as int].payload is Array) && !(old(self).objects@[scope as int].payload is Str)),
                plain ==> forall|k: int| 0 <= k < i ==> binds(self.objects@[scope as int], #[trigger] vars@[k].0@),
                forall|h2: Heap|
                    #[trigger] vars_outcome(*self, scope as int, vars@, i as nat, h2)
                        ==> vars_outcome(*old(self), scope as int, vars@, 0, h2),
            decreases vars@.len() - i,
        {
            let ghost hi = *self;
            let ghost k = i as nat;
            let name = &vars[i].0;
            proof {
                assert(self.objects@[scope as int].valid(self.len()));
            }
            if !self.objects[scope].has_own(name) {
                self.define(scope, name.clone(), JSValue::Undefined, Access::nonconf());
                proof {
                    assert(stage(*self, k));
                }
            } else {
                proof {
                    if plain {
                        let o = self.objects@[scope as int];
                        assert(crate::object::keys_unique(o.properties@));
                        assert(key_pos(o.properties@, name@) is Some);
                    }
                }
            }
            i = i + 1;
            proof {
                assert forall|h2: Heap|
                    #[trigger] vars_outcome(*self, scope as int, vars@, i as nat, h2)
                        implies vars_outcome(*old(self), scope as int, vars@, 0, h2) by {
                    assert(k + 1 == i as nat);
                    assert(stage(*self, k));
                    assert(vars_outcome(hi, scope as int, vars@, k, h2));
                }
            }
        }
        let ghost hv = *self;
        proof {
            assert(vars_outcome(*self, scope as int, vars@, i as nat, *self));
            assert(vars_outcome(*old(self), scope as int, vars@, 0, hv));
        }
        let mut j: usize = 0;
        while j < funcs.len()
            invariant
                self.grows_from(*old(self)),
                self.scope == scope,
                j <= funcs@.len(),
                self.len() == old(self).len() + 2 * j,
                self.objects@[scope as int].payload == old(self).objects@[scope as int].payload,
                scope == old(self).scope,
                plain == (!(old(self).objects@[scope as int].payload is Array) && !(old(self).objects@[scope as int].payload is Str)),
                plain ==> forall|k: int| 0 <= k < vars@.len() ==> binds(self.objects@[scope as int], #[trigger] vars@[k].0@),
                plain ==> forall|k: int| 0 <= k < j ==> binds(self.objects@[scope as int], #[trigger] funcs@[k].id.0@),
                vars_outcome(*old(self), scope as int, vars@, 0, hv),
                forall|h2: Heap, r2: JSResult<()>|
                    #[trigger] funcs_outcome(*self, scope as int, funcs@, j as nat, h2, r2)
                        ==> funcs_outcome(hv, scope as int, funcs@, 0, h2, r2),
            decreases funcs@.len() - j,
        {
            let ghost hj = *self;
            let ghost k = j as nat;
            if !self.has_room() {
                let e = out_of_memory();
                proof {
                    assert(funcs_outcome(hj, scope as int, funcs@, k, *self, Err::<(), Exception>(e)));
                    assert(stage(hv, vars@));
                }
                return Err(e);
            }
            let decl = &funcs[j];
            let f = self.new_function(share_function(&decl.function.func));
            let ghost hf = *self;
            self.define(scope, decl.id.0.clone(), JSValue::Ref(f), Access::nonconf());
            j = j + 1;
            proof {
                assert forall|h2: Heap, r2: JSResult<()>|
                    #[trigger] funcs_outcome(*self, scope as int, funcs@, j as nat, h2, r2)
                        implies funcs_outcome(hv, scope as int, funcs@, 0, h2, r2) by {
                    assert(k + 1 == j as nat);
                    assert(stage(hf, *self));
                    assert(funcs_outcome(hj, scope as int, funcs@, k, h2, r2));
                }
            }
        }
        proof {
            assert(funcs_outcome(*self, scope as int, funcs@, j as nat, *self, Ok::<(), Exception>(())));
            assert(stage(hv, vars@));
        }
        Ok(())
    }

    /// Runs a function value with the given receiver and arguments.
    pub fn execute(&mut self, func_ref: ObjectId, args: Vec<JSValue>, this_ref: JSValue, fuel: u64) -> (r: JSResult<JSValue>)
        requires
            old(self).wf(),
            1 <= func_ref < old(self).len(),
            values_valid(args@, old(self).len()),
            old(self).valid(this_ref),
        ensures
            execute_outcome(*old(self), func_ref, args@, this_ref, fuel as nat, *final(self), r),
            !(r matches Err(Exception::Jump(_))),
            value_step(*old(self), *final(self), r),
            fuel > 0 ==> match old(self).objects@[func_ref as int].payload {
                Payload::Closure(_) => true,
                Payload::Host(_) => true,
                _ => r matches Err(Exception::TypeError(_)),
            },
        decreases fuel,
    {
        if fuel == 0 {
            return Err(out_of_fuel());
        }
        let (function, captured) = match &self.objects[func_ref].payload {
            Payload::Closure(c) => (share_function(&c.function), c.captured_scope),
            Payload::Host(h) => {
                return self.call_host(*h, args, this_ref);
            },
            _ => {
                return Err(type_error("not a function"));
            },
        };
        proof {
            assert(self.objects@[func_ref as int].valid(self.len()));
        }
        if !self.has_room() {
            return Err(out_of_memory());
        }
        let caller = self.loc;
        let saved = self.scope;
        let scope = self.new_scope(this_ref, captured);
        if let Some(l) = caller {
            self.set_caller(scope, l);
        }
        self.scope = scope;
        let ghost hs = *self;
        proof {
            assert(called(*old(self), captured, this_ref, hs));
        }
        let r = self.call_body(&function, args, fuel - 1);
        let ghost h3 = *self;
        let ghost g = r;
        self.scope = saved;
        proof {
            assert(stage(hs, (h3, g)));
        }
        r
    }

    fn call_body(&mut self, function: &Function, args: Vec<JSValue>, fuel: u64) -> (r: JSResult<JSValue>)
        requires
            old(self).wf(),
            values_valid(args@, old(self).len()),
        ensures
            callbody_outcome(*old(self), *function, args@, fuel as nat, *final(self), r),
            !(r matches Err(Exception::Jump(_))),
            value_step(*old(self), *final(self), r),
        decreases fuel,
    {
        if fuel == 0 {
            return Err(out_of_fuel());
        }
        let scope = self.scope;
        let ghost h0 = *self;
        let ghost ps = function.params@;
        let mut i: usize = 0;
        while i < function.params.len()
            invariant
                self.grows_from(*old(self)),
                self.scope == scope,
                scope == old(self).scope,
                values_valid(args@, self.len()),
                ps == function.params@,
                i <= ps.len(),
                forall|h2: Heap|
                    #[trigger] params_outcome(*self, scope as int, ps, args@, i as nat, h2)
                        ==> params_outcome(*old(self), scope as int, ps, args@, 0, h2),
            decreases function.params@.len() - i,
        {
            let ghost hi = *self;
            let value = if i < args.len() { args[i].dup() } else { JSValue::Undefined };
            proof {
                if i < args.len() {
                    assert(valid_value(args@[i as int], self.len()));
                }
            }
            self.define(scope, function.params[i].0.clone(), value, Access::nonconf());
            let ghost k = i as nat;
            proof {
                assert(ps[k as int].0@ == function.params@[k as int].0@);
                assert(crate::heap::defined(hi, scope as int, ps[k as int].0@,
                    if k < args@.len() { args@[k as int] } else { JSValue::Undefined }, Access { write: true, enumerable: true, configurable: false }, *self));
            }
            i = i + 1;
            proof {
                assert forall|h2: Heap|
                    #[trigger] params_outcome(*self, scope as int, ps, args@, i as nat, h2)
                        implies params_outcome(*old(self), scope as int, ps, args@, 0, h2) by {
                    assert(stage(*self, k));
                    assert(k + 1 == i as nat);
                    assert(params_outcome(hi, scope as int, ps, args@, k, h2));
                }
            }
        }
        let ghost hp = *self;
        proof {
            assert(params_outcome(*self, scope as int, ps, args@, i as nat, *self));
        }
        let rd = self.declare(&function.variables, &function.functions);
        let ghost hd = *self;
        match rd {
            Ok(()) => {},
            Err(x) => {
                proof {
                    assert(stage((hp, hd), (rd, Ok::<Interpreted, Exception>(Interpreted::Value(JSValue::Undefined)))));
                }
                return Err(x);
            },
        }
        let result = function.body.interpret_in(self, fuel - 1);
        proof {
            assert(stage((hp, hd), (rd, result)));
        }
        function_completion(result)
    }

    /// Runs a host function: `push` appends its arguments to the receiver
    /// array and gives the new length; `Error` makes an error object whose
    /// message is its first argument.
    pub fn call_host(&mut self, host: HostFn, args: Vec<JSValue>, this_ref: JSValue) -> (r: JSResult<JSValue>)
        requires
            old(self).wf(),
            values_valid(args@, old(self).len()),
            old(self).valid(this_ref),
        ensures
            host == HostFn::ErrorConstructor ==> (old(self).len() + 8 < usize::MAX ==> r is Ok),
            host == HostFn::ErrorConstructor && r is Ok ==> (r->Ok_0 matches JSValue::Ref(id)
                && (prop_value(final(self).objects@[id as int].properties@, seq!['m', 'e', 's', 's', 'a', 'g', 'e']) matches Some(JSValue::String(m))
                    && m@ == error_message_text(old(self).objects@, args@))
                && (prop_value(final(self).objects@[id as int].properties@, seq!['n', 'a', 'm', 'e']) matches Some(JSValue::String(k))
                    && k@ == seq!['E', 'r', 'r', 'o', 'r'])),
            host_post(*old(self), host, args@, this_ref, *final(self), r),
            !(r matches Err(Exception::Jump(_))),
            value_step(*old(self), *final(self), r),
            host == HostFn::ArrayPush ==> match this_ref {
                JSValue::Ref(id) => match old(self).objects@[id as int].payload {
                    Payload::Array(items) => final(self).objects@[id as int].payload matches Payload::Array(after)
                        && after@ == items@ + args@
                        && r == Ok::<JSValue, Exception>(JSValue::Number(crate::number::num_of(after@.len() as int))),
                    _ => r matches Err(Exception::TypeError(_)),
                },
                _ => r matches Err(Exception::TypeError(_)),
            },
            host == HostFn::ErrorConstructor && r is Ok ==> (r->Ok_0 matches JSValue::Ref(id)
                && old(self).len() <= id && final(self).objects@[id as int].payload is Error),
    {
        match host {
            HostFn::ArrayPush => {
                let id = match this_ref {
                    JSValue::Ref(id) => id,
                    _ => {
                        return Err(type_error("push called on a non-array"));
                    },
                };
                if !matches!(self.objects[id].payload, Payload::Array(_)) {
                    return Err(type_error("push called on a non-array"));
                }
                let ghost before = self.objects@[id as int].payload->Array_0@;
                let mut i: usize = 0;
                while i < args.len()
                    invariant
                        self.grows_from(*old(self)),
                        self.len() == old(self).len(),
                        1 <= id < self.len(),
                        i <= args@.len(),
                        self.objects@[id as int].payload is Array,
                        self.objects@[id as int].payload->Array_0@ == before + args@.take(i as int),
                        values_valid(args@, self.len()),
                    decreases args@.len() - i,
                {
                    proof {
                        assert(valid_value(args@[i as int], self.len()));
                        assert(args@.take(i + 1) =~= args@.take(i as int).push(args@[i as int]));
                    }
                    self.push_item(id, args[i].dup());
                    i = i + 1;
                }
                proof {
                    assert(args@.take(i as int) =~= args@);
                }
                let len = match &self.objects[id].payload {
                    Payload::Array(items) => items.len(),
                    _ => 0,
                };
                Ok(JSValue::Number(Num::from_usize(len)))
            },
            HostFn::ErrorConstructor => {
                let message = if args.len() > 0 && !matches!(args[0], JSValue::Undefined) {
                    proof {
                        assert(valid_value(args@[0], self.len()));
                    }
                    self.stringify(&args[0])
                } else {
                    String::new()
                };
                if !self.has_room() {
                    return Err(out_of_memory());
                }
                proof {
                    reveal_strlit("Error");
                    assert("Error"@ =~= seq!['E', 'r', 'r', 'o', 'r']);
                }
                let id = self.new_error(String::from_str("Error"), message);
                Ok(JSValue::Ref(id))
            },
        }
    }

    /// Makes an object of a value: objects stand for themselves, strings get
    /// a wrapper holding the string, other primitives a plain object.
    pub fn objectify(&mut self, v: JSValue) -> (r: JSResult<ObjectId>)
        requires
            old(self).wf(),
            old(self).valid(v),
        ensures
            final(self).grows_from(*old(self)),
            r matches Ok(id) ==> 1 <= id < final(self).len(),
            v matches JSValue::Ref(id) ==> r == Ok::<ObjectId, Exception>(id) && *final(self) == *old(self),
            (v is Undefined || v is Null) ==> r is Err,
            r matches Err(e) ==> e is TypeError && *final(self) == *old(self),
            !(v is Ref) && r is Ok ==> wrapped(*old(self), v, *final(self), r->Ok_0),
            !(v is Undefined) && !(v is Null) && old(self).len() + 8 < usize::MAX ==> r is Ok,
            objectify_post(*old(self), v, *final(self), r),
    {
        match v {
            JSValue::Ref(id) => Ok(id),
            JSValue::Undefined => Err(type_error("cannot read a property of undefined")),
            JSValue::Null => Err(type_error("cannot read a property of null")),
            JSValue::String(s) => {
                if !self.has_room() {
                    return Err(type_error("heap exhausted"));
                }
                Ok(self.allocate(crate::object::JSObject::with_payload(Payload::Str(s), OBJECT_PROTO)))
            },
            _ => {
                if !self.has_room() {
                    return Err(type_error("heap exhausted"));
                }
                let id = self.new_object(OBJECT_PROTO);
                proof {
                    assert(self.objects@ =~= old(self).objects@.push(self.objects@[id as int]));
                }
                Ok(id)
            },
        }
    }

    /// The value an exception gives a `catch` clause: what was thrown, or an
    /// error object that keeps the diagnostic's kind as its name.
    #[verifier::spinoff_prover]
    pub fn caught_value(&mut self, exc: Exception) -> (r: JSResult<JSValue>)
        requires
            old(self).wf(),
            valid_exception(exc, old(self).len()),
        ensures
            !(r matches Err(Exception::Jump(_))),
            value_step(*old(self), *final(self), r),
            exc matches Exception::UserThrown(v) ==> r == Ok::<JSValue, Exception>(v),
            !(exc is UserThrown) && r is Ok ==> (r->Ok_0 matches JSValue::Ref(id) && old(self).len() <= id
                && final(self).objects@[id as int].payload is Error
                && final(self).objects@[id as int].proto == crate::heap::ERROR_PROTO
                && (prop_value(final(self).objects@[id as int].properties@, seq!['n', 'a', 'm', 'e']) matches Some(JSValue::String(k))
                    && k@ == error_kind_name(exc))
                && (diagnostic_message(exc) matches Some(m) ==> prop_value(
                    final(self).objects@[id as int].properties@,
                    seq!['m', 'e', 's', 's', 'a', 'g', 'e'],
                ) == Some(JSValue::String(m)))),
            old(self).len() + 8 < usize::MAX ==> r is Ok,
            caught_outcome(*old(self), exc, *final(self), r),
    {
        proof {
            reveal_strlit("SyntaxError");
            reveal_strlit("TypeError");
            reveal_strlit("ReferenceError");
            reveal_strlit("RangeError");
        }
        let (kind, message) = match exc {
            Exception::UserThrown(v) => {
                return Ok(v);
            },
            Exception::Jump(_) => (String::from_str("SyntaxError"), String::from_str("jump caught by catch")),
            Exception::TypeError(m) => (String::from_str("TypeError"), m),
            Exception::ReferenceError(m) => (String::from_str("ReferenceError"), m),
            Exception::SyntaxTreeError(m) => (String::from_str("SyntaxError"), m),
            Exception::RangeError(m) => (String::from_str("RangeError"), m),
        };
        if !self.has_room() {
            return Err(out_of_memory());
        }
        let id = self.new_error(kind, message);
        Ok(JSValue::Ref(id))
    }
}


impl Program {
    /// Hoists the program's declarations into the current scope, then runs its body.
    pub fn interpret_in(&self, heap: &mut Heap, fuel: u64) -> (r: JSResult<Interpreted>)
        requires
            old(heap).wf(),
        ensures
            program_outcome(*old(heap), *self, fuel as nat, *final(heap), r),
            step(*old(heap), *final(heap), r),
        decreases fuel,
    {
        if fuel == 0 {
            return Err(out_of_fuel());
        }
        let ru = heap.declare(&self.variables, &self.functions);
        proof {
            assert(stage(*heap, ru));
        }
        match ru {
            Ok(()) => {},
            Err(x) => {
                return Err(x);
            },
        }
        self.body.interpret_in(heap, fuel - 1)
    }
}

impl Statement {
    pub fn interpret_in(&self, heap: &mut Heap, fuel: u64) -> (r: JSResult<Interpreted>)
        requires
            old(heap).wf(),
        ensures
            stmt_outcome(*old(heap), *self, fuel as nat, *final(heap), r),
            step(*old(heap), *final(heap), r),
            fuel > 0 && self.stmt is Empty ==> r == Ok::<Interpreted, Exception>(Interpreted::Value(JSValue::Undefined)),
        decreases fuel,
    {
        if fuel == 0 {
            return Err(out_of_fuel());
        }
        heap.loc = match &self.loc {
            Some(l) => Some(**l),
            None => None,
        };
        proof {
            assert(*heap == at_loc(*old(heap), self.loc));
        }
        let f = fuel - 1;
        match &self.stmt {
            Stmt::Empty => Ok(Interpreted::void()),
            Stmt::Expr(stmt) => stmt.interpret_in(heap, f),
            Stmt::Block(stmt) => stmt.interpret_in(heap, f),
            Stmt::If(stmt) => stmt.interpret_in(heap, f),
            Stmt::Switch(stmt) => stmt.interpret_in(heap, f),
            Stmt::For(stmt) => stmt.interpret_in(heap, f),
            Stmt::ForIn(stmt) => stmt.interpret_in(heap, f),
            Stmt::Break(stmt) => stmt.interpret_in(heap, f),
            Stmt::Continue(stmt) => stmt.interpret_in(heap, f),
            Stmt::Label(stmt) => stmt.interpret_in(heap, f),
            Stmt::Return(stmt) => stmt.interpret_in(heap, f),
            Stmt::Throw(stmt) => stmt.interpret_in(heap, f),
            Stmt::Try(stmt) => stmt.interpret_in(heap, f),
            Stmt::Variable(stmt) => stmt.interpret_in(heap, f),
            Stmt::Function(stmt) => stmt.interpret_in(heap, f),
        }
    }
}

impl BlockStatement {
    /// Runs the block in a fresh scope, which is left on every exit path;
    /// the value is that of the last statement.
    pub fn interpret_in(&self, heap: &mut Heap, fuel: u64) -> (r: JSResult<Interpreted>)
        requires
            old(heap).wf(),
        ensures
            block_outcome(*old(heap), *self, fuel as nat, *final(heap), r),
            step(*old(heap), *final(heap), r),
        decreases fuel,
    {
        if fuel == 0 {
            return Err(out_of_fuel());
        }
        if !heap.has_room() {
            return Err(out_of_memory());
        }
        let this_ref = heap.interpret_this();
        let saved = heap.scope;
        let scope = heap.new_scope(this_ref, saved);
        heap.scope = scope;
        let ghost hs = *heap;
        proof {
            assert(entered(*old(heap), hs));
        }
        let r = self.run_statements(heap, fuel - 1);
        let ghost h3 = *heap;
        let ghost g = r;
        heap.scope = saved;
        proof {
            assert(stage(hs, (h3, g)));
        }
        r
    }

    fn run_statements(&self, heap: &mut Heap, fuel: u64) -> (r: JSResult<Interpreted>)
        requires
            old(heap).wf(),
        ensures
            body_outcome(*old(heap), *self, fuel as nat, *final(heap), r),
            step(*old(heap), *final(heap), r),
        decreases fuel,
    {
        if fuel == 0 {
            return Err(out_of_fuel());
        }
        let ghost h0 = *heap;
        let no_functions: Vec<FunctionDeclaration> = Vec::new();
        let ru = heap.declare(&self.bindings, &no_functions);
        let ghost h1 = *heap;
        proof {
            assert(no_functions@ =~= Seq::<FunctionDeclaration>::empty());
            assert(stage(h1, ru));
        }
        match ru {
            Ok(()) => {},
            Err(x) => {
                return Err(x);
            },
        }
        let ghost f = (fuel - 1) as nat;
        let mut result = Interpreted::void();
        let mut i: usize = 0;
        proof {
            assert(self.body@.skip(0) =~= self.body@);
        }
        while i < self.body.len()
            invariant
                fuel > 0,
                f == fuel - 1,
                heap.grows_from(*old(heap)),
                valid_interpreted(result, heap.len()),
                i <= self.body@.len(),
                ru is Ok,
                declare_outcome(h0, self.bindings@, Seq::empty(), h1, ru),
                h0 == *old(heap),
                forall|h2: Heap, r2: JSResult<Interpreted>|
                    #[trigger] stmts_outcome(*heap, self.body@.skip(i as int), f, result, h2, r2)
                        ==> stmts_outcome(h1, self.body@, f, Interpreted::Value(JSValue::Undefined), h2, r2),
            decreases self.body@.len() - i,
        {
            let ghost hi = *heap;
            let ghost ri = result;
            let r1 = self.body[i].interpret_in(heap, fuel - 1);
            let ghost g1 = r1;
            let ghost hn = *heap;
            proof {
                assert(stage(hn, g1));
                assert(self.body@.skip(i as int)[0] == self.body@[i as int]);
                assert(self.body@.skip(i as int).drop_first() =~= self.body@.skip(i + 1));
            }
            match r1 {
                Ok(v) => {
                    result = v;
                },
                Err(x) => {
                    proof {
                        assert(stmts_outcome(hi, self.body@.skip(i as int), f, ri, hn, g1));
                        assert(stmts_outcome(h1, self.body@, f, Interpreted::Value(JSValue::Undefined), hn, g1));
                        assert(stage(h1, ru));
                    }
                    return Err(x);
                },
            }
            proof {
                assert forall|h2: Heap, r2: JSResult<Interpreted>|
                    #[trigger] stmts_outcome(hn, self.body@.skip(i + 1), f, result, h2, r2)
                        implies stmts_outcome(h1, self.body@, f, Interpreted::Value(JSValue::Undefined), h2, r2) by {
                    assert(stmts_outcome(hi, self.body@.skip(i as int), f, ri, h2, r2));
                }
            }
            i = i + 1;
        }
        proof {
            assert(self.body@.skip(i as int) =~= Seq::<Statement>::empty());
            assert(stmts_outcome(*heap, self.body@.skip(i as int), f, result, *heap, Ok::<Interpreted, Exception>(result)));
            assert(stmts_outcome(h1, self.body@, f, Interpreted::Value(JSValue::Undefined), *heap, Ok::<Interpreted, Exception>(result)));
            assert(stage(h1, ru));
        }
        Ok(result)
    }
}

impl ExpressionStatement {
    pub fn interpret_in(&self, heap: &mut Heap, fuel: u64) -> (r: JSResult<Interpreted>)
        requires
            old(heap).wf(),
        ensures
            exprstmt_outcome(*old(heap), *self, fuel as nat, *final(heap), r),
            step(*old(heap), *final(heap), r),
            r matches Ok(i) ==> i is Value,
        decreases fuel,
    {
        if fuel == 0 {
            return Err(out_of_fuel());
        }
        let r1 = self.expression.evaluate_in(heap, fuel - 1);
        proof {
            assert(stage(*heap, r1));
        }
        match r1 {
            Ok(v) => Ok(Interpreted::Value(v)),
            Err(x) => Err(x),
        }
    }
}

impl IfStatement {
    pub fn interpret_in(&self, heap: &mut Heap, fuel: u64) -> (r: JSResult<Interpreted>)
        requires
            old(heap).wf(),
        ensures
            if_outcome(*old(heap), *self, fuel as nat, *final(heap), r),
            step(*old(heap), *final(heap), r),
        decreases fuel,
    {
        if fuel == 0 {
            return Err(out_of_fuel());
        }
        let r1 = self.test.evaluate_in(heap, fuel - 1);
        let ghost g1 = r1;
        proof {
            assert(stage(*heap, g1));
        }
        let cond = match r1 {
            Ok(v) => v,
            Err(x) => {
                return Err(x);
            },
        };
        if cond.boolify() {
            self.consequent.interpret_in(heap, fuel - 1)
        } else {
            match &self.alternate {
                Some(alt) => alt.interpret_in(heap, fuel - 1),
                None => Ok(Interpreted::void()),
            }
        }
    }
}

/// Where a `switch` starts running: the first matching case, else the
/// default case, else past the end.
pub fn restart_index(found: Option<usize>, default: Option<usize>, end: usize) -> (r: usize)
    ensures
        r == match found {
            Some(k) => k,
            None => match default {
                Some(d) => d,
                None => end,
            },
        },
{
    match found {
        Some(k) => k,
        None => match default {
            Some(d) => d,
            None => end,
        },
    }
}

impl SwitchStatement {
    /// Finds the first case equal (`===`) to the discriminant, else the
    /// default, and falls through from there until the end or a `break`.
    pub fn interpret_in(&self, heap: &mut Heap, fuel: u64) -> (r: JSResult<Interpreted>)
        requires
            old(heap).wf(),
        ensures
            switch_outcome(*old(heap), *self, fuel as nat, *final(heap), r),
            step(*old(heap), *final(heap), r),
            r matches Ok(i) ==> i == Interpreted::Value(JSValue::Undefined),
        decreases fuel,
    {
        if fuel == 0 {
            return Err(out_of_fuel());
        }
        let r1 = self.discriminant.evaluate_in(heap, fuel - 1);
        let ghost h1 = *heap;
        let ghost g1 = r1;
        let switchval = match r1 {
            Ok(v) => v,
            Err(x) => {
                proof {
                    assert(stage((h1, g1), (h1, Err::<nat, Exception>(x))));
                }
                return Err(x);
            },
        };
        let ghost f = (fuel - 1) as nat;
        let ghost cases = self.cases@;
        let end = self.cases.len();
        let mut default: Option<usize> = None;
        let mut found: Option<usize> = None;
        let mut i: usize = 0;
        while i < end && found.is_none()
            invariant
                fuel > 0,
                f == fuel - 1,
                cases == self.cases@,
                heap.grows_from(*old(heap)),
                valid_value(switchval, heap.len()),
                end == self.cases@.len(),
                i <= end,
                default matches Some(d) ==> d < end,
                value_outcome(*old(heap), self.discriminant, f, h1, g1),
                g1 == Ok::<JSValue, Exception>(switchval),
                found matches Some(k) ==> k < end && search_outcome(h1, cases, 0, switchval, None, f, *heap, Ok::<nat, Exception>(k as nat)),
                found is None ==> forall|h2: Heap, res: Result<nat, Exception>|
                    #[trigger] search_outcome(*heap, cases, i as nat, switchval, opt_nat(default), f, h2, res)
                        ==> search_outcome(h1, cases, 0, switchval, None, f, h2, res),
            decreases end - i,
        {
            let ghost hi = *heap;
            let ghost di = opt_nat(default);
            match &self.cases[i].test {
                None => {
                    default = Some(i);
                },
                Some(test) => {
                    let rk = test.evaluate_in(heap, fuel - 1);
                    let ghost gk = rk;
                    proof {
                        assert(stage(*heap, gk));
                    }
                    let caseval = match rk {
                        Ok(v) => v,
                        Err(x) => {
                            proof {
                                assert(search_outcome(hi, cases, i as nat, switchval, di, f, *heap, Err::<nat, Exception>(x)));
                                assert(stage((h1, g1), (*heap, Err::<nat, Exception>(x))));
                            }
                            return Err(x);
                        },
                    };
                    if JSValue::strict_eq(&switchval, &caseval) {
                        proof {
                            assert(search_outcome(hi, cases, i as nat, switchval, di, f, *heap, Ok::<nat, Exception>(i as nat)));
                        }
                        found = Some(i);
                    }
                },
            }
            let ghost iold = i as nat;
            i = i + 1;
            proof {
                if found is None {
                    assert forall|h2: Heap, res: Result<nat, Exception>|
                        #[trigger] search_outcome(*heap, cases, i as nat, switchval, opt_nat(default), f, h2, res)
                            implies search_outcome(h1, cases, 0, switchval, None, f, h2, res) by {
                        assert(iold + 1 == i as nat);
                        assert(search_outcome(hi, cases, iold, switchval, di, f, h2, res));
                    }
                }
            }
        }
        let start = restart_index(found, default, end);
        let ghost hk = *heap;
        proof {
            if found is None {
                assert(i == end);
                assert(search_outcome(*heap, cases, i as nat, switchval, opt_nat(default), f, *heap, Ok::<nat, Exception>(start as nat)));
            }
            assert(search_outcome(h1, cases, 0, switchval, None, f, hk, Ok::<nat, Exception>(start as nat)));
            assert(stage((h1, g1), (hk, Ok::<nat, Exception>(start as nat))));
        }
        let mut k: usize = start;
        while k < end
            invariant
                value_outcome(*old(heap), self.discriminant, f, h1, g1),
                g1 == Ok::<JSValue, Exception>(switchval),
                search_outcome(h1, cases, 0, switchval, None, f, hk, Ok::<nat, Exception>(start as nat)),
                fuel > 0,
                f == fuel - 1,
                cases == self.cases@,
                heap.grows_from(*old(heap)),
                end == self.cases@.len(),
                start <= k || k >= end,
                forall|h2: Heap, r2: JSResult<Interpreted>|
                    #[trigger] fall_outcome(*heap, flat_cases(cases, k as nat), f, h2, r2)
                        ==> fall_outcome(hk, flat_cases(cases, start as nat), f, h2, r2),
            decreases end - k,
        {
            let consequent = &self.cases[k].consequent;
            let ghost rest = flat_cases(cases, (k + 1) as nat);
            proof {
                assert(flat_cases(cases, k as nat) == cases[k as int].consequent@ + rest);
                assert(consequent@.skip(0) + rest =~= flat_cases(cases, k as nat));
            }
            let mut j: usize = 0;
            while j < consequent.len()
                invariant
                    value_outcome(*old(heap), self.discriminant, f, h1, g1),
                    g1 == Ok::<JSValue, Exception>(switchval),
                    search_outcome(h1, cases, 0, switchval, None, f, hk, Ok::<nat, Exception>(start as nat)),
                    cases == self.cases@,
                    fuel > 0,
                    f == fuel - 1,
                    heap.grows_from(*old(heap)),
                    j <= consequent@.len(),
                    forall|h2: Heap, r2: JSResult<Interpreted>|
                        #[trigger] fall_outcome(*heap, consequent@.skip(j as int) + rest, f, h2, r2)
                            ==> fall_outcome(hk, flat_cases(cases, start as nat), f, h2, r2),
                decreases consequent@.len() - j,
            {
                let ghost hj = *heap;
                let ghost sq = consequent@.skip(j as int) + rest;
                proof {
                    assert(sq[0] == consequent@[j as int]);
                    assert(sq.drop_first() =~= consequent@.skip(j + 1) + rest);
                }
                let rj = consequent[j].interpret_in(heap, fuel - 1);
                let ghost gj = rj;
                proof {
                    assert(stage(*heap, gj));
                }
                match rj {
                    Ok(_) => {},
                    Err(Exception::Jump(Jump::Break(None))) => {
                        proof {
                            assert(fall_outcome(hj, sq, f, *heap, Ok::<Interpreted, Exception>(Interpreted::Value(JSValue::Undefined))));
                            assert(stage((h1, g1), (hk, Ok::<nat, Exception>(start as nat))));
                        }
                        return Ok(Interpreted::void());
                    },
                    Err(e) => {
                        proof {
                            assert(fall_outcome(hj, sq, f, *heap, Err::<Interpreted, Exception>(e)));
                            assert(stage((h1, g1), (hk, Ok::<nat, Exception>(start as nat))));
                        }
                        return Err(e);
                    },
                }
                proof {
                    assert forall|h2: Heap, r2: JSResult<Interpreted>|
                        #[trigger] fall_outcome(*heap, consequent@.skip(j + 1) + rest, f, h2, r2)
                            implies fall_outcome(hk, flat_cases(cases, start as nat), f, h2, r2) by {
                        assert(stage(*heap, gj));
                        assert(fall_outcome(hj, sq, f, h2, r2));
                    }
                }
                j = j + 1;
            }
            proof {
                assert(consequent@.skip(j as int) + rest =~= rest);
            }
            k = k + 1;
        }
        proof {
            assert(flat_cases(cases, k as nat) =~= Seq::<Statement>::empty());
            assert(fall_outcome(*heap, flat_cases(cases, k as nat), f, *heap, Ok::<Interpreted, Exception>(Interpreted::Value(JSValue::Undefined))));
            assert(stage((h1, g1), (hk, Ok::<nat, Exception>(start as nat))));
        }
        Ok(Interpreted::void())
    }
}

impl ForStatement {
    /// Runs the loop but for its `init`; `continue` and `break` aimed at the
    /// loop itself, or at `label`, are handled here.
    pub fn do_loop(&self, heap: &mut Heap, label: Option<&Identifier>, fuel: u64) -> (r: JSResult<Interpreted>)
        requires
            old(heap).wf(),
        ensures
            loop_outcome_spec(*old(heap), *self, label, fuel as nat, *final(heap), r),
            step(*old(heap), *final(heap), r),
            r matches Ok(i) ==> i == Interpreted::Value(JSValue::Undefined),
        decreases fuel,
    {
        if fuel == 0 {
            return Err(out_of_fuel());
        }
        let ghost g = (fuel - 1) as nat;
        let mut count: u64 = 0;
        while count < LOOP_LIMIT
            invariant
                fuel > 0,
                g == fuel - 1,
                heap.grows_from(*old(heap)),
                forall|h2: Heap, r2: JSResult<Interpreted>|
                    #[trigger] iter_outcome(*heap, *self, label, g, count as nat, h2, r2)
                        ==> iter_outcome(*old(heap), *self, label, g, 0, h2, r2),
            decreases LOOP_LIMIT - count,
        {
            let ghost hc = *heap;
            let rt = self.should_iterate(heap, fuel - 1);
            let ghost ht = *heap;
            let ghost gt = rt;
            let go_on = match rt {
                Ok(b) => b,
                Err(x) => {
                    proof {
                        assert(stage((ht, gt), ((ht, Ok::<Interpreted, Exception>(Interpreted::Value(JSValue::Undefined))), (ht, Ok::<(), Exception>(())))));
                        assert(iter_outcome(hc, *self, label, g, count as nat, ht, Err::<Interpreted, Exception>(x)));
                    }
                    return Err(x);
                },
            };
            if !go_on {
                proof {
                    assert(stage((ht, gt), ((ht, Ok::<Interpreted, Exception>(Interpreted::Value(JSValue::Undefined))), (ht, Ok::<(), Exception>(())))));
                    assert(iter_outcome(hc, *self, label, g, count as nat, ht, Ok::<Interpreted, Exception>(Interpreted::Value(JSValue::Undefined))));
                }
                return Ok(Interpreted::void());
            }
            let result = self.body.interpret_in(heap, fuel - 1);
            let ghost hb = *heap;
            let ghost gb = result;
            match loop_outcome(result, label) {
                LoopControl::Next => {},
                LoopControl::Exit(r) => {
                    proof {
                        assert(stage((ht, gt), ((hb, gb), (hb, Ok::<(), Exception>(())))));
                        assert(iter_outcome(hc, *self, label, g, count as nat, hb, r));
                    }
                    return r;
                },
            }
            let ru = self.do_update(heap, fuel - 1);
            let ghost hu = *heap;
            let ghost gu = ru;
            proof {
                assert(stage((ht, gt), ((hb, gb), (hu, gu))));
            }
            match ru {
                Ok(()) => {},
                Err(x) => {
                    proof {
                        assert(iter_outcome(hc, *self, label, g, count as nat, hu, Err::<Interpreted, Exception>(x)));
                    }
                    return Err(x);
                },
            }
            let ghost cold = count as nat;
            count = count + 1;
            proof {
                assert forall|h2: Heap, r2: JSResult<Interpreted>|
                    #[trigger] iter_outcome(*heap, *self, label, g, count as nat, h2, r2)
                        implies iter_outcome(*old(heap), *self, label, g, 0, h2, r2) by {
                    assert(stage((ht, gt), ((hb, gb), (hu, gu))));
                    assert(cold + 1 == count as nat);
                    assert(iter_outcome(hc, *self, label, g, cold, h2, r2));
                }
            }
        }
        let e = loop_limit();
        proof {
            assert(iter_outcome(*heap, *self, label, g, count as nat, *heap, Err::<Interpreted, Exception>(e)));
        }
        Err(e)
    }

    /// Evaluates the test; a missing test is true.
    pub fn should_iterate(&self, heap: &mut Heap, fuel: u64) -> (r: JSResult<bool>)
        requires
            old(heap).wf(),
        ensures
            test_outcome(*old(heap), self.test, fuel as nat, *final(heap), r),
            final(heap).grows_from(*old(heap)),
            r matches Err(e) ==> valid_exception(e, final(heap).len()),
            self.test is None ==> r == Ok::<bool, Exception>(true),
        decreases fuel,
    {
        match &self.test {
            None => Ok(true),
            Some(test) => {
                if fuel == 0 {
                    return Err(out_of_fuel());
                }
                let r1 = test.evaluate_in(heap, fuel - 1);
                proof {
                    assert(stage(*heap, r1));
                }
                match r1 {
                    Ok(v) => Ok(v.boolify()),
                    Err(x) => Err(x),
                }
            },
        }
    }

    /// Evaluates the update expression, if any.
    pub fn do_update(&self, heap: &mut Heap, fuel: u64) -> (r: JSResult<()>)
        requires
            old(heap).wf(),
        ensures
            step_outcome(*old(heap), self.update, fuel as nat, *final(heap), r),
            unit_step(*old(heap), *final(heap), r),
        decreases fuel,
    {
        if fuel == 0 {
            return Err(out_of_fuel());
        }
        match &self.update {
            Some(update) => {
                let p1 = update.interpret_in(heap, fuel - 1);
                proof {
                    assert(stage(*heap, p1));
                }
                match p1 {
                    Ok(_) => Ok(()),
                    Err(x) => Err(x),
                }
            },
            None => Ok(()),
        }
    }

    pub fn interpret_in(&self, heap: &mut Heap, fuel: u64) -> (r: JSResult<Interpreted>)
        requires
            old(heap).wf(),
        ensures
            fuel == 0 ==> *final(heap) == *old(heap) && r matches Err(Exception::RangeError(_)),
            fuel > 0 ==> run_for_outcome(*old(heap), *self, None, (fuel - 1) as nat, *final(heap), r),
            step(*old(heap), *final(heap), r),
            r matches Ok(i) ==> i == Interpreted::Value(JSValue::Undefined),
        decreases fuel,
    {
        if fuel == 0 {
            return Err(out_of_fuel());
        }
        self.run(heap, None, fuel - 1)
    }

    /// Runs `init`, then the loop.
    fn run(&self, heap: &mut Heap, label: Option<&Identifier>, fuel: u64) -> (r: JSResult<Interpreted>)
        requires
            old(heap).wf(),
        ensures
            run_for_outcome(*old(heap), *self, label, fuel as nat, *final(heap), r),
            step(*old(heap), *final(heap), r),
            r matches Ok(i) ==> i == Interpreted::Value(JSValue::Undefined),
        decreases fuel,
    {
        if fuel == 0 {
            return Err(out_of_fuel());
        }
        let ri = self.init.interpret_in(heap, fuel - 1);
        proof {
            assert(stage(*heap, ri));
        }
        match ri {
            Ok(_) => {},
            Err(x) => {
                return Err(x);
            },
        }
        self.do_loop(heap, label, fuel - 1)
    }
}

impl ForInStatement {
    pub fn interpret_in(&self, heap: &mut Heap, fuel: u64) -> (r: JSResult<Interpreted>)
        requires
            old(heap).wf(),
        ensures
            step(*old(heap), *final(heap), r),
            r matches Ok(i) ==> i == Interpreted::Value(JSValue::Undefined),
            fuel == 0 ==> *final(heap) == *old(heap) && r matches Err(Exception::RangeError(_)),
            fuel > 0 ==> forin_outcome(*old(heap), *self, None, (fuel - 1) as nat, *final(heap), r),
        decreases fuel,
    {
        if fuel == 0 {
            return Err(out_of_fuel());
        }
        self.run(heap, None, fuel - 1)
    }

    /// Visits the own names of the object and then of each object on its
    /// prototype chain, each name once; every still enumerable one is
    /// written to the target before the body runs.
    fn run(&self, heap: &mut Heap, label: Option<&Identifier>, fuel: u64) -> (r: JSResult<Interpreted>)
        requires
            old(heap).wf(),
        ensures
            step(*old(heap), *final(heap), r),
            r matches Ok(i) ==> i == Interpreted::Value(JSValue::Undefined),
            forin_outcome(*old(heap), *self, label, fuel as nat, *final(heap), r),
        decreases fuel,
    {
        if fuel == 0 {
            return Err(out_of_fuel());
        }
        let r1 = self.right.evaluate_in(heap, fuel - 1);
        let ghost h1 = *heap;
        let ghost g1 = r1;
        let value = match r1 {
            Ok(v) => v,
            Err(x) => {
                proof {
                    assert(stage((h1, g1), (h1, Err::<ObjectId, Exception>(x))));
                }
                return Err(x);
            },
        };
        let ghost gv = value;
        match value {
            JSValue::Undefined => {
                proof {
                    assert(stage((h1, g1), (h1, Ok::<ObjectId, Exception>(0))));
                }
                return Ok(Interpreted::void());
            },
            JSValue::Null => {
                proof {
                    assert(stage((h1, g1), (h1, Ok::<ObjectId, Exception>(0))));
                }
                return Ok(Interpreted::void());
            },
            _ => {},
        }
        let rs = heap.objectify(value);
        let ghost hs = *heap;
        let ghost gs = rs;
        proof {
            assert(stage((h1, g1), (hs, gs)));
        }
        let start = match rs {
            Ok(id) => id,
            Err(x) => {
                return Err(x);
            },
        };
        let ghost g = (fuel - 1) as nat;
        let mut visited: Vec<String> = Vec::new();
        let mut objref = start;
        let mut count: u64 = 0;
        proof {
            assert(views(visited@) =~= Seq::<Seq<char>>::empty());
        }
        while objref != NULL
            invariant
                fuel > 0,
                g == fuel - 1,
                heap.grows_from(*old(heap)),
                objref < heap.len(),
                value_outcome(*old(heap), self.right, g, h1, g1),
                g1 == Ok::<JSValue, Exception>(gv),
                !(gv is Undefined) && !(gv is Null),
                objectify_post(h1, gv, hs, gs),
                gs == Ok::<ObjectId, Exception>(start),
                forall|h2: Heap, r2: JSResult<Interpreted>|
                    #[trigger] chain_outcome(*heap, *self, label, g, objref as nat, views(visited@), count as nat, h2, r2)
                        ==> chain_outcome(hs, *self, label, g, start as nat, Seq::empty(), 0, h2, r2),
            decreases objref,
        {
            let keys = heap.objects[objref].own_keys();
            let is_array = matches!(heap.objects[objref].payload, Payload::Array(_));
            let ghost ks = views(keys@);
            proof {
                assert(ks == crate::object::own_names(heap.objects@[objref as int]));
            }
            let mut i: usize = 0;
            proof {
                assert(is_array == (heap.objects@[objref as int].payload is Array));
                assert forall|h2: Heap, r2: JSResult<Interpreted>|
                    #[trigger] names_outcome(*heap, *self, label, g, objref as nat, ks, is_array, 0,
                        views(visited@), count as nat, h2, r2)
                        implies chain_outcome(hs, *self, label, g, start as nat, Seq::empty(), 0, h2, r2) by {
                    assert(chain_outcome(*heap, *self, label, g, objref as nat, views(visited@), count as nat, h2, r2));
                }
            }
            while i < keys.len()
                invariant
                    fuel > 0,
                    g == fuel - 1,
                    heap.grows_from(*old(heap)),
                    1 <= objref < heap.len(),
                    ks == views(keys@),
                    i <= keys@.len(),
                    value_outcome(*old(heap), self.right, g, h1, g1),
                    g1 == Ok::<JSValue, Exception>(gv),
                    !(gv is Undefined) && !(gv is Null),
                    objectify_post(h1, gv, hs, gs),
                    gs == Ok::<ObjectId, Exception>(start),
                    forall|h2: Heap, r2: JSResult<Interpreted>|
                        #[trigger] names_outcome(*heap, *self, label, g, objref as nat, ks, is_array, i as nat,
                            views(visited@), count as nat, h2, r2)
                            ==> chain_outcome(hs, *self, label, g, start as nat, Seq::empty(), 0, h2, r2),
                decreases keys@.len() - i,
            {
                let ghost hi = *heap;
                let ghost vis = views(visited@);
                let ghost ci = count as nat;
                let ghost k = i as nat;
                let name = &keys[i];
                i = i + 1;
                proof {
                    assert(ks[k as int] == name@);
                }
                let seen = contains_name(&visited, name);
                proof {
                    if seen {
                        let w = choose|w: int| 0 <= w < visited@.len() && (#[trigger] visited@[w])@ == name@;
                        assert(vis[w] == name@);
                    } else {
                        assert forall|w: int| 0 <= w < vis.len() implies vis[w] != name@ by {
                            assert(vis[w] == visited@[w]@);
                        }
                    }
                    assert(seen == vis.contains(name@));
                }
                if !seen {
                    visited.push(name.clone());
                    proof {
                        assert(views(visited@) =~= vis.push(name@));
                    }
                    if count >= LOOP_LIMIT {
                        let e = loop_limit();
                        proof {
                            assert(names_outcome(hi, *self, label, g, objref as nat, ks, is_array, k, vis, ci, *heap, Err::<Interpreted, Exception>(e)));
                            assert(stage((h1, g1), (hs, gs)));
                        }
                        return Err(e);
                    }
                    count = count + 1;
                    proof {
                        assert(heap.objects@[objref as int].valid(heap.len()));
                    }
                    if heap.objects[objref].still_enumerable(name) {
                        let key = if is_array {
                            match crate::text::parse_index(name.as_str()) {
                                Some(n) => JSValue::Number(Num::from_usize(n)),
                                None => JSValue::String(name.clone()),
                            }
                        } else {
                            JSValue::String(name.clone())
                        };
                        let ghost kv = key;
                        proof {
                            assert(key_is(is_array, name@, kv));
                        }
                        let pt = match &self.left {
                            ForInTarget::Expr(expr) => expr.interpret_in(heap, fuel - 1),
                            ForInTarget::Var(decl) => {
                                if decl.declarations.len() == 0 {
                                    Err(Exception::SyntaxTreeError(String::from_str("empty for-in declaration")))
                                } else {
                                    Ok(identifier_place(heap, &decl.declarations[0].name))
                                }
                            },
                        };
                        let ghost ht = *heap;
                        let ghost gpt = pt;
                        proof {
                            assert(target_outcome(hi, self.left, g, ht, gpt));
                        }
                        let target = match pt {
                            Ok(t) => t,
                            Err(x) => {
                                proof {
                                    assert(stage((ht, gpt), (kv, (ht, (Ok::<(), Exception>(()), (ht, gpt))))));
                                    assert(names_outcome(hi, *self, label, g, objref as nat, ks, is_array, k, vis, ci, ht, Err::<Interpreted, Exception>(x)));
                                    assert(stage((h1, g1), (hs, gs)));
                                }
                                return Err(x);
                            },
                        };
                        let ru = heap.put_value(target, key);
                        let ghost hp = *heap;
                        let ghost gru = ru;
                        match ru {
                            Ok(()) => {},
                            Err(x) => {
                                proof {
                                    assert(stage((ht, gpt), (kv, (hp, (gru, (hp, gpt))))));
                                    assert(names_outcome(hi, *self, label, g, objref as nat, ks, is_array, k, vis, ci, hp, Err::<Interpreted, Exception>(x)));
                                    assert(stage((h1, g1), (hs, gs)));
                                }
                                return Err(x);
                            },
                        }
                        let rb = self.body.interpret_in(heap, fuel - 1);
                        let ghost hb = *heap;
                        let ghost grb = rb;
                        proof {
                            assert(stage((ht, gpt), (kv, (hp, (gru, (hb, grb))))));
                        }
                        match loop_outcome(rb, label) {
                            LoopControl::Next => {},
                            LoopControl::Exit(r) => {
                                proof {
                                    assert(names_outcome(hi, *self, label, g, objref as nat, ks, is_array, k, vis, ci, hb, r));
                                    assert(stage((h1, g1), (hs, gs)));
                                }
                                return r;
                            },
                        }
                        proof {
                            assert forall|h2: Heap, r2: JSResult<Interpreted>|
                                #[trigger] names_outcome(*heap, *self, label, g, objref as nat, ks, is_array, i as nat,
                                    views(visited@), count as nat, h2, r2)
                                    implies chain_outcome(hs, *self, label, g, start as nat, Seq::empty(), 0, h2, r2) by {
                                assert(stage((ht, gpt), (kv, (hp, (gru, (hb, grb))))));
                                assert(names_outcome(hi, *self, label, g, objref as nat, ks, is_array, k, vis, ci, h2, r2));
                            }
                        }
                    } else {
                        proof {
                            assert forall|h2: Heap, r2: JSResult<Interpreted>|
                                #[trigger] names_outcome(*heap, *self, label, g, objref as nat, ks, is_array, i as nat,
                                    views(visited@), count as nat, h2, r2)
                                    implies chain_outcome(hs, *self, label, g, start as nat, Seq::empty(), 0, h2, r2) by {
                                assert(names_outcome(hi, *self, label, g, objref as nat, ks, is_array, k, vis, ci, h2, r2));
                            }
                        }
                    }
                } else {
                    proof {
                        assert forall|h2: Heap, r2: JSResult<Interpreted>|
                            #[trigger] names_outcome(*heap, *self, label, g, objref as nat, ks, is_array, i as nat,
                                views(visited@), count as nat, h2, r2)
                                implies chain_outcome(hs, *self, label, g, start as nat, Seq::empty(), 0, h2, r2) by {
                            assert(names_outcome(hi, *self, label, g, objref as nat, ks, is_array, k, vis, ci, h2, r2));
                        }
                    }
                }
            }
            let next = heap.objects[objref].proto;
            proof {
                assert(next < objref);
                assert forall|h2: Heap, r2: JSResult<Interpreted>|
                    #[trigger] chain_outcome(*heap, *self, label, g, next as nat, views(visited@), count as nat, h2, r2)
                        implies chain_outcome(hs, *self, label, g, start as nat, Seq::empty(), 0, h2, r2) by {
                    assert(names_outcome(*heap, *self, label, g, objref as nat, ks, is_array, i as nat,
                        views(visited@), count as nat, h2, r2));
                }
            }
            objref = next;
        }
        proof {
            assert(chain_outcome(*heap, *self, label, g, objref as nat, views(visited@), count as nat, *heap,
                Ok::<Interpreted, Exception>(Interpreted::Value(JSValue::Undefined))));
            assert(stage((h1, g1), (hs, gs)));
        }
        Ok(Interpreted::void())
    }
}

/// The texts of a list of strings.
pub open spec fn views(v: Seq<String>) -> Seq<Seq<char>> {
    v.map_values(|t: String| t@)
}

/// Whether `names` holds `name`.
pub fn contains_name(names: &Vec<String>, name: &String) -> (r: bool)
    ensures
        r == exists|k: int| 0 <= k < names@.len() && (#[trigger] names@[k])@ == name@,
{
    let mut k: usize = 0;
    while k < names.len()
        invariant
            k <= names@.len(),
            forall|j: int| 0 <= j < k ==> (#[trigger] names@[j])@ != name@,
        decreases names@.len() - k,
    {
        if names[k] == *name {
            return true;
        }
        k = k + 1;
    }
    false
}

/// The object that holds the binding of `name`: the nearest scope that binds
/// it, else the global object.
pub open spec fn bound_in(heap: Heap, name: Seq<char>) -> usize {
    match binding_scope(heap.objects@, heap.scope as int, name) {
        Some(id) => id as usize,
        None => GLOBAL,
    }
}

/// The place a name designates: its binding in the scope chain, or a
/// property of the global object.
pub fn identifier_place(heap: &Heap, name: &Identifier) -> (r: Interpreted)
    requires
        heap.wf(),
    ensures
        valid_interpreted(r, heap.len()),
        r == (Interpreted::Member { of: bound_in(*heap, name.0@), name: name.0 }),
{
    match heap.lookup_var(&name.0) {
        Some(of) => Interpreted::Member { of, name: name.0.clone() },
        None => Interpreted::Member { of: GLOBAL, name: name.0.clone() },
    }
}

impl BreakStatement {
    pub fn interpret_in(&self, heap: &mut Heap, fuel: u64) -> (r: JSResult<Interpreted>)
        requires
            old(heap).wf(),
        ensures
            *final(heap) == *old(heap),
            step(*old(heap), *final(heap), r),
            r == Err::<Interpreted, Exception>(Exception::Jump(Jump::Break(self.0))),
        decreases fuel,
    {
        Err(Exception::Jump(Jump::Break(crate::ast::dup_label(&self.0))))
    }
}

impl ContinueStatement {
    pub fn interpret_in(&self, heap: &mut Heap, fuel: u64) -> (r: JSResult<Interpreted>)
        requires
            old(heap).wf(),
        ensures
            *final(heap) == *old(heap),
            step(*old(heap), *final(heap), r),
            r == Err::<Interpreted, Exception>(Exception::Jump(Jump::Continue(self.0))),
        decreases fuel,
    {
        Err(Exception::Jump(Jump::Continue(crate::ast::dup_label(&self.0))))
    }
}

impl LabelStatement {
    /// Runs a labelled loop: `continue label` goes on with the loop's next
    /// iteration and `break label` ends it.
    pub fn continue_loop(&self, heap: &mut Heap, fuel: u64) -> (r: JSResult<Interpreted>)
        requires
            old(heap).wf(),
        ensures
            step(*old(heap), *final(heap), r),
            fuel > 0 ==> (self.1.stmt matches Stmt::For(fs) ==> run_for_outcome(*old(heap), *fs, Some(&self.0), (fuel - 1) as nat, *final(heap), r)),
            fuel > 0 ==> (self.1.stmt matches Stmt::ForIn(fi) ==> forin_outcome(*old(heap), *fi, Some(&self.0), (fuel - 1) as nat, *final(heap), r)),
            fuel == 0 ==> *final(heap) == *old(heap) && r matches Err(Exception::RangeError(_)),
            fuel > 0 && !(self.1.stmt is For) && !(self.1.stmt is ForIn) ==> r matches Err(Exception::SyntaxTreeError(_)),
        decreases fuel,
    {
        if fuel == 0 {
            return Err(out_of_fuel());
        }
        let LabelStatement(label, body) = self;
        match &body.stmt {
            Stmt::For(stmt) => stmt.run(heap, Some(label), fuel - 1),
            Stmt::ForIn(stmt) => stmt.run(heap, Some(label), fuel - 1),
            _ => Err(Exception::SyntaxTreeError(String::from_str("continue to a label that is not a loop"))),
        }
    }

    /// A `break` to the label ends the statement normally.
    pub fn interpret_in(&self, heap: &mut Heap, fuel: u64) -> (r: JSResult<Interpreted>)
        requires
            old(heap).wf(),
        ensures
            label_outcome(*old(heap), *self, fuel as nat, *final(heap), r),
            step(*old(heap), *final(heap), r),
        decreases fuel,
    {
        if fuel == 0 {
            return Err(out_of_fuel());
        }
        let LabelStatement(label, body) = self;
        let result = match &body.stmt {
            Stmt::For(_) => self.continue_loop(heap, fuel - 1),
            Stmt::ForIn(_) => self.continue_loop(heap, fuel - 1),
            _ => body.interpret_in(heap, fuel - 1),
        };
        proof {
            assert(stage(*heap, result));
        }
        label_completion(result, label)
    }
}

impl ReturnStatement {
    pub fn interpret_in(&self, heap: &mut Heap, fuel: u64) -> (r: JSResult<Interpreted>)
        requires
            old(heap).wf(),
        ensures
            return_outcome(*old(heap), *self, fuel as nat, *final(heap), r),
            step(*old(heap), *final(heap), r),
            r matches Err(Exception::Jump(j)) ==> j is Return,
            fuel > 0 && self.0 is None ==> r == Err::<Interpreted, Exception>(Exception::Jump(Jump::Return(JSValue::Undefined))),
            r is Err,
        decreases fuel,
    {
        if fuel == 0 {
            return Err(out_of_fuel());
        }
        let returned = match &self.0 {
            None => JSValue::Undefined,
            Some(expr) => {
                let r1 = expr.evaluate_in(heap, fuel - 1);
                proof {
                    assert(stage(*heap, r1));
                }
                match r1 {
                    Ok(v) => v,
                    Err(x) => {
                        return Err(x);
                    },
                }
            },
        };
        Err(Exception::Jump(Jump::Return(returned)))
    }
}

impl ThrowStatement {
    pub fn interpret_in(&self, heap: &mut Heap, fuel: u64) -> (r: JSResult<Interpreted>)
        requires
            old(heap).wf(),
        ensures
            throw_outcome(*old(heap), *self, fuel as nat, *final(heap), r),
            step(*old(heap), *final(heap), r),
            !(r matches Err(Exception::Jump(_))),
            r is Err,
        decreases fuel,
    {
        if fuel == 0 {
            return Err(out_of_fuel());
        }
        let r1 = self.0.evaluate_in(heap, fuel - 1);
        proof {
            assert(stage(*heap, r1));
        }
        match r1 {
            Ok(v) => Err(Exception::UserThrown(v)),
            Err(x) => Err(x),
        }
    }
}

impl CatchClause {
    /// Runs the handler in a fresh scope, with its parameter bound to the
    /// value of the exception.
    pub fn interpret(&self, exc: Exception, heap: &mut Heap, fuel: u64) -> (r: JSResult<Interpreted>)
        requires
            old(heap).wf(),
            valid_exception(exc, old(heap).len()),
        ensures
            catch_outcome(*old(heap), *self, exc, fuel as nat, *final(heap), r),
            step(*old(heap), *final(heap), r),
        decreases fuel,
    {
        if fuel == 0 {
            return Err(out_of_fuel());
        }
        if !heap.has_room() {
            return Err(out_of_memory());
        }
        let this_ref = heap.interpret_this();
        let saved = heap.scope;
        let scope = heap.new_scope(this_ref, saved);
        heap.scope = scope;
        let ghost hs = *heap;
        proof {
            assert(entered(*old(heap), hs));
        }
        let r = self.bind_and_run(exc, heap, fuel - 1);
        let ghost h3 = *heap;
        let ghost g = r;
        heap.scope = saved;
        proof {
            assert(stage(hs, (h3, g)));
        }
        r
    }

    fn bind_and_run(&self, exc: Exception, heap: &mut Heap, fuel: u64) -> (r: JSResult<Interpreted>)
        requires
            old(heap).wf(),
            valid_exception(exc, old(heap).len()),
        ensures
            bind_outcome(*old(heap), *self, exc, fuel as nat, *final(heap), r),
            step(*old(heap), *final(heap), r),
        decreases fuel,
    {
        if fuel == 0 {
            return Err(out_of_fuel());
        }
        let rv = heap.caught_value(exc);
        let ghost h1 = *heap;
        proof {
            assert(stage(h1, rv));
        }
        let error_value = match rv {
            Ok(v) => v,
            Err(x) => {
                return Err(x);
            },
        };
        let ghost ev = error_value;
        let scope = heap.scope;
        heap.define(scope, self.param.0.clone(), error_value, Access::nonconf());
        proof {
            assert(stage(*heap, ev));
        }
        self.body.interpret_in(heap, fuel - 1)
    }
}

/// The outcome of `try` once its finalizer has run: an exception of the
/// finalizer supersedes, else the outcome of the block (or handler) stands.
pub fn settle_try(pending: JSResult<Interpreted>, finalizer: JSResult<()>) -> (r: JSResult<Interpreted>)
    ensures
        finalizer matches Err(e) ==> r == Err::<Interpreted, Exception>(e),
        finalizer is Ok ==> r == pending,
{
    match finalizer {
        Err(e) => Err(e),
        Ok(()) => pending,
    }
}

impl TryStatement {
    /// Runs the finalizer, if any.
    pub fn run_finalizer(&self, heap: &mut Heap, fuel: u64) -> (r: JSResult<()>)
        requires
            old(heap).wf(),
        ensures
            self.finalizer matches Some(b) ==> if fuel == 0 {
                *final(heap) == *old(heap) && r matches Err(Exception::RangeError(_))
            } else {
                exists|rf: JSResult<Interpreted>|
                    #[trigger] stage(*final(heap), rf) && block_outcome(*old(heap), b, (fuel - 1) as nat, *final(heap), rf)
                        && match rf {
                        Err(x) => r == Err::<(), Exception>(x),
                        Ok(_) => r is Ok,
                    }
            },
            unit_step(*old(heap), *final(heap), r),
            self.finalizer is None ==> r is Ok && *final(heap) == *old(heap),
        decreases fuel,
    {
        match &self.finalizer {
            Some(finalizer) => {
                if fuel == 0 {
                    return Err(out_of_fuel());
                }
                let rf = finalizer.interpret_in(heap, fuel - 1);
                proof {
                    assert(stage(*heap, rf));
                }
                match rf {
                    Ok(_) => Ok(()),
                    Err(x) => Err(x),
                }
            },
            None => Ok(()),
        }
    }

    /// Runs the block; a thrown value or a diagnostic error goes to the
    /// handler, if any, while jumps pass it by. The finalizer runs once on
    /// every path, and its own exception supersedes.
    pub fn interpret_in(&self, heap: &mut Heap, fuel: u64) -> (r: JSResult<Interpreted>)
        requires
            old(heap).wf(),
        ensures
            try_outcome(*old(heap), *self, fuel as nat, *final(heap), r),
            step(*old(heap), *final(heap), r),
        decreases fuel,
    {
        if fuel == 0 {
            return Err(out_of_fuel());
        }
        let result = self.block.interpret_in(heap, fuel - 1);
        let ghost hb = *heap;
        let ghost rb = result;
        let pending = match result {
            Ok(v) => Ok(v),
            Err(Exception::Jump(j)) => Err(Exception::Jump(j)),
            Err(e) => match &self.handler {
                None => Err(e),
                Some(handler) => handler.interpret(e, heap, fuel - 1),
            },
        };
        let ghost hp = *heap;
        let ghost pend = pending;
        let r = self.finish(pending, heap, fuel - 1);
        proof {
            assert(stage((hb, rb), (hp, pend)));
        }
        r
    }

    /// Runs the finalizer once and settles the outcome: without a finalizer
    /// the pending outcome stands and the heap is untouched; with one, the
    /// pending outcome stands unless the finalizer raises, whose exception
    /// then supersedes it.
    pub fn finish(&self, pending: JSResult<Interpreted>, heap: &mut Heap, fuel: u64) -> (r: JSResult<Interpreted>)
        requires
            old(heap).wf(),
            pending matches Ok(i) ==> valid_interpreted(i, old(heap).len()),
            pending matches Err(e) ==> valid_exception(e, old(heap).len()),
        ensures
            finish_outcome(*old(heap), self.finalizer, pending, fuel as nat, *final(heap), r),
            step(*old(heap), *final(heap), r),
            self.finalizer is None ==> r == pending && *final(heap) == *old(heap),
            r == pending || (r is Err && self.finalizer is Some),
        decreases fuel,
    {
        if self.finalizer.is_none() {
            return pending;
        }
        if fuel == 0 {
            return Err(out_of_fuel());
        }
        let fin = self.run_finalizer(heap, fuel - 1);
        settle_try(pending, fin)
    }
}

impl VariableDeclaration {
    /// Assigns each initialised declarator to its hoisted binding.
    pub fn interpret_in(&self, heap: &mut Heap, fuel: u64) -> (r: JSResult<Interpreted>)
        requires
            old(heap).wf(),
        ensures
            fuel > 0 ==> decls_outcome(*old(heap), self.declarations@, (fuel - 1) as nat, *final(heap), r),
            fuel == 0 ==> *final(heap) == *old(heap) && r matches Err(Exception::RangeError(_)),
            step(*old(heap), *final(heap), r),
            r matches Ok(i) ==> i == Interpreted::Value(JSValue::Undefined),
        decreases fuel,
    {
        if fuel == 0 {
            return Err(out_of_fuel());
        }
        let ghost f = (fuel - 1) as nat;
        let ghost ds = self.declarations@;
        let mut i: usize = 0;
        proof {
            assert(ds.skip(0) =~= ds);
        }
        while i < self.declarations.len()
            invariant
                fuel > 0,
                f == fuel - 1,
                ds == self.declarations@,
                i <= ds.len(),
                heap.grows_from(*old(heap)),
                forall|h2: Heap, r2: JSResult<Interpreted>|
                    #[trigger] decls_outcome(*heap, ds.skip(i as int), f, h2, r2)
                        ==> decls_outcome(*old(heap), ds, f, h2, r2),
            decreases self.declarations@.len() - i,
        {
            let ghost hi = *heap;
            proof {
                assert(ds.skip(i as int)[0] == ds[i as int]);
                assert(ds.skip(i as int).drop_first() =~= ds.skip(i + 1));
            }
            let decl = &self.declarations[i];
            match &decl.init {
                Some(init) => {
                    let r1 = init.evaluate_in(heap, fuel - 1);
                    let ghost g1 = r1;
                    let ghost h1 = *heap;
                    proof {
                        assert(stage(h1, g1));
                    }
                    let value = match r1 {
                        Ok(v) => v,
                        Err(x) => {
                            proof {
                                assert(stage(h1, (g1, h1)));
                                assert(decls_outcome(hi, ds.skip(i as int), f, h1, Err::<Interpreted, Exception>(g1->Err_0)));
                            }
                            return Err(x);
                        },
                    };
                    let ghost gv = value;
                    proof {
                        assert(g1 == Ok::<JSValue, Exception>(gv));
                    }
                    match heap.lookup_var(&decl.name.0) {
                        Some(of) => {
                            heap.set_property(of, decl.name.0.clone(), value);
                            proof {
                                assert(stage(*heap, of as int));
                                assert forall|h2: Heap, r2: JSResult<Interpreted>|
                                    #[trigger] decls_outcome(*heap, ds.skip(i + 1), f, h2, r2)
                                        implies decls_outcome(*old(heap), ds, f, h2, r2) by {
                                    assert(stage(h1, (g1, *heap)));
                                    assert(ds.skip(i as int)[0] == ds[i as int]);
                                    assert(decls_outcome(hi, ds.skip(i as int), f, h2, r2));
                                }
                            }
                        },
                        None => {
                            let mut msg = decl.name.0.clone();
                            msg.append(" is not declared");
                            let r = Err(Exception::ReferenceError(msg));
                            proof {
                                assert(stage(h1, (g1, h1)));
                                assert(decls_outcome(hi, ds.skip(i as int), f, *heap, r));
                            }
                            return r;
                        },
                    }
                },
                None => {
                    proof {
                        assert forall|h2: Heap, r2: JSResult<Interpreted>|
                            #[trigger] decls_outcome(*heap, ds.skip(i + 1), f, h2, r2)
                                implies decls_outcome(*old(heap), ds, f, h2, r2) by {
                            assert(decls_outcome(hi, ds.skip(i as int), f, h2, r2));
                        }
                    }
                },
            }
            i = i + 1;
        }
        proof {
            assert(ds.skip(i as int) =~= Seq::<crate::ast::VariableDeclarator>::empty());
            assert(decls_outcome(*heap, ds.skip(i as int), f, *heap, Ok::<Interpreted, Exception>(Interpreted::Value(JSValue::Undefined))));
        }
        Ok(Interpreted::void())
    }
}

impl FunctionDeclaration {
    /// Nothing happens here: the function was bound when its scope was entered.
    pub fn interpret_in(&self, heap: &mut Heap, fuel: u64) -> (r: JSResult<Interpreted>)
        requires
            old(heap).wf(),
        ensures
            step(*old(heap), *final(heap), r),
            r == Ok::<Interpreted, Exception>(Interpreted::Value(JSValue::Undefined)),
            *final(heap) == *old(heap),
        decreases fuel,
    {
        Ok(Interpreted::void())
    }
}

/// Loose equality (`==`) of two primitives: `null` and `undefined` equal
/// each other only; values of one type compare strictly; otherwise both sides
/// are compared as numbers.
pub open spec fn loose_eq_spec(a: JSValue, b: JSValue) -> bool {
    let nullish_a = a is Undefined || a is Null;
    let nullish_b = b is Undefined || b is Null;
    if nullish_a || nullish_b {
        nullish_a && nullish_b
    } else if same_type(a, b) {
        crate::value::spec_strict_eq(a, b)
    } else {
        let x = primitive_num(a);
        let y = primitive_num(b);
        x is Int && x == y
    }
}

pub open spec fn same_type(a: JSValue, b: JSValue) -> bool {
    ||| (a is Undefined && b is Undefined)
    ||| (a is Null && b is Null)
    ||| (a is Bool && b is Bool)
    ||| (a is Number && b is Number)
    ||| (a is String && b is String)
    ||| (a is Ref && b is Ref)
}

fn is_nullish(v: &JSValue) -> (r: bool)
    ensures
        r == (v is Undefined || v is Null),
{
    match v {
        JSValue::Undefined => true,
        JSValue::Null => true,
        _ => false,
    }
}

fn is_same_type(a: &JSValue, b: &JSValue) -> (r: bool)
    ensures
        r == same_type(*a, *b),
{
    match (a, b) {
        (JSValue::Undefined, JSValue::Undefined) => true,
        (JSValue::Null, JSValue::Null) => true,
        (JSValue::Bool(_), JSValue::Bool(_)) => true,
        (JSValue::Number(_), JSValue::Number(_)) => true,
        (JSValue::String(_), JSValue::String(_)) => true,
        (JSValue::Ref(_), JSValue::Ref(_)) => true,
        _ => false,
    }
}

/// The number a value converts to for `==`: an object by its text.
pub open spec fn num_after(objs: Seq<JSObject>, v: JSValue) -> Num {
    if v is Ref {
        crate::text::str_num(value_text(objs, v))
    } else {
        primitive_num(v)
    }
}

/// Loose equality (`==`) of any two values: as `loose_eq_spec`, where an
/// object compared with a primitive is first converted to its text.
pub open spec fn loose_full(objs: Seq<JSObject>, a: JSValue, b: JSValue) -> bool {
    let nullish_a = a is Undefined || a is Null;
    let nullish_b = b is Undefined || b is Null;
    if nullish_a || nullish_b {
        nullish_a && nullish_b
    } else if same_type(a, b) {
        crate::value::spec_strict_eq(a, b)
    } else if (a is Ref || a is String) && (b is Ref || b is String) {
        value_text(objs, a) == value_text(objs, b)
    } else {
        let x = num_after(objs, a);
        let y = num_after(objs, b);
        x is Int && x == y
    }
}

/// `a + b` on primitives: string concatenation if either is a string, else
/// numeric addition.
pub open spec fn plus_spec(a: JSValue, b: JSValue, r: JSValue) -> bool {
    if a is String || b is String {
        r matches JSValue::String(s) && s@ == primitive_text(a) + primitive_text(b)
    } else {
        r == JSValue::Number(add_spec(primitive_num(a), primitive_num(b)))
    }
}

/// `a < b`: by characters if both are strings, else as numbers (an object
/// counts as `NaN`, and any comparison with `NaN` is false).
pub open spec fn less_spec(a: JSValue, b: JSValue) -> bool {
    if a is String && b is String {
        crate::text::str_less(a->String_0@, b->String_0@)
    } else {
        let x = primitive_num(a);
        let y = primitive_num(b);
        x is Int && y is Int && x->Int_0 < y->Int_0
    }
}

/// `a <= b`, with the same conversions as `less_spec`.
pub open spec fn less_eq_spec(a: JSValue, b: JSValue) -> bool {
    if a is String && b is String {
        !crate::text::str_less(b->String_0@, a->String_0@)
    } else {
        let x = primitive_num(a);
        let y = primitive_num(b);
        x is Int && y is Int && x->Int_0 <= y->Int_0
    }
}

/// Whether `target` lies on the prototype chain that starts at `cur`.
pub open spec fn chain_reaches(objs: Seq<JSObject>, cur: int, target: int) -> bool
    decreases cur,
{
    if cur <= 0 || cur >= objs.len() {
        false
    } else if cur == target {
        true
    } else if objs[cur].proto < cur {
        chain_reaches(objs, objs[cur].proto as int, target)
    } else {
        false
    }
}

/// The result of a bitwise operator on two numbers.
pub open spec fn int32_num(x: i32) -> JSValue {
    JSValue::Number(Num::Int(x as i64))
}

/// `a + b` on any values: concatenation of their texts if either is a
/// string or an object, else numeric addition.
pub open spec fn full_plus_spec(objs: Seq<JSObject>, a: JSValue, b: JSValue, r: JSValue) -> bool {
    if a is String || b is String || a is Ref || b is Ref {
        r matches JSValue::String(s) && s@ == value_text(objs, a) + value_text(objs, b)
    } else {
        r == JSValue::Number(add_spec(primitive_num(a), primitive_num(b)))
    }
}

/// The shift count: the low five bits of the right operand.
pub open spec fn shift_count(b: Num) -> u32 {
    (#[verifier::truncate] (crate::number::spec_to_i32(b) as u32)) % 32
}

/// `a << b` on 32-bit integers.
pub open spec fn shl_spec(a: Num, b: Num) -> i32 {
    #[verifier::truncate] (((#[verifier::truncate] (crate::number::spec_to_i32(a) as u32)) << shift_count(b)) as i32)
}

/// `a >> b`, keeping the sign.
pub open spec fn shr_spec(a: Num, b: Num) -> i32 {
    crate::number::spec_to_i32(a) >> shift_count(b)
}

/// `a >>> b`, filling with zeros.
pub open spec fn ushr_spec(a: Num, b: Num) -> u32 {
    (#[verifier::truncate] (crate::number::spec_to_i32(a) as u32)) >> shift_count(b)
}

impl Heap {
    /// Loose equality (`==`); an object compared with a primitive is first
    /// converted to its string.
    pub fn loose_eq(&self, a: &JSValue, b: &JSValue) -> (r: bool)
        requires
            self.wf(),
            self.valid(*a),
            self.valid(*b),
        ensures
            !(a is Ref) && !(b is Ref) ==> r == loose_eq_spec(*a, *b),
            r == loose_full(self.objects@, *a, *b),
    {
        if is_nullish(a) || is_nullish(b) {
            return is_nullish(a) && is_nullish(b);
        }
        if is_same_type(a, b) {
            return JSValue::strict_eq(a, b);
        }
        let x = match a {
            JSValue::Ref(_) => JSValue::String(self.stringify(a)),
            _ => a.dup(),
        };
        let y = match b {
            JSValue::Ref(_) => JSValue::String(self.stringify(b)),
            _ => b.dup(),
        };
        if is_same_type(&x, &y) {
            return JSValue::strict_eq(&x, &y);
        }
        let m = self.numberify(&x);
        let n = self.numberify(&y);
        m.num_eq(&n)
    }

    /// `a + b`: concatenation if either side is a string or an object, else
    /// numeric addition.
    pub fn plus(&self, a: &JSValue, b: &JSValue) -> (r: JSValue)
        requires
            self.wf(),
            self.valid(*a),
            self.valid(*b),
        ensures
            !(r is Ref),
            !(a is Ref) && !(b is Ref) ==> plus_spec(*a, *b, r),
            full_plus_spec(self.objects@, *a, *b, r),
    {
        let stringy = match (a, b) {
            (JSValue::String(_), _) => true,
            (_, JSValue::String(_)) => true,
            (JSValue::Ref(_), _) => true,
            (_, JSValue::Ref(_)) => true,
            _ => false,
        };
        if stringy {
            let left = self.stringify(a);
            let right = self.stringify(b);
            JSValue::String(left.concat(right.as_str()))
        } else {
            JSValue::Number(self.numberify(a).add(&self.numberify(b)))
        }
    }

    /// `a < b`: by characters if both are strings, else as numbers.
    pub fn less_than(&self, a: &JSValue, b: &JSValue) -> (r: bool)
        requires
            self.wf(),
            self.valid(*a),
            self.valid(*b),
        ensures
            r == less_spec(*a, *b),
    {
        match (a, b) {
            (JSValue::String(x), JSValue::String(y)) => crate::text::string_less(x.as_str(), y.as_str()),
            _ => self.numberify(a).less(&self.numberify(b)),
        }
    }

    /// `a <= b`: false if either side is `NaN`, else not `b < a`.
    pub fn less_eq(&self, a: &JSValue, b: &JSValue) -> (r: bool)
        requires
            self.wf(),
            self.valid(*a),
            self.valid(*b),
        ensures
            r == less_eq_spec(*a, *b),
    {
        match (a, b) {
            (JSValue::String(x), JSValue::String(y)) => !crate::text::string_less(y.as_str(), x.as_str()),
            _ => {
                let m = self.numberify(a);
                let n = self.numberify(b);
                !m.is_nan() && !n.is_nan() && !n.less(&m)
            },
        }
    }

    /// Whether `prototype` lies on the prototype chain of object `id`.
    pub fn has_in_chain(&self, id: ObjectId, prototype: ObjectId) -> (r: bool)
        requires
            self.wf(),
            1 <= id < self.len(),
        ensures
            r == chain_reaches(self.objects@, self.objects@[id as int].proto as int, prototype as int),
    {
        let mut cur = self.objects[id].proto;
        while cur != NULL
            invariant
                self.wf(),
                cur < self.len(),
                chain_reaches(self.objects@, self.objects@[id as int].proto as int, prototype as int)
                    == chain_reaches(self.objects@, cur as int, prototype as int),
            decreases cur,
        {
            if cur == prototype {
                return true;
            }
            cur = self.objects[cur].proto;
        }
        false
    }
}

/// The 32-bit result of a bitwise operator as a number.
fn int32_value(x: i32) -> (r: JSValue)
    ensures
        r == JSValue::Number(Num::Int(x as i64)),
{
    JSValue::Number(Num::Int(x as i64))
}

/// What applying `op` to `lval` and `rval` on `heap` may give.
pub open spec fn compute_post(op: BinOp, lval: JSValue, rval: JSValue, heap: Heap, r: JSResult<JSValue>) -> bool {
    &&& (r matches Ok(v) ==> !(v is Ref))
    &&& (r matches Err(e) ==> e is TypeError)
    &&& (op == BinOp::EqEqEq ==> r == Ok::<JSValue, Exception>(JSValue::Bool(crate::value::spec_strict_eq(lval, rval))))
    &&& (op == BinOp::NotEqEq ==> r == Ok::<JSValue, Exception>(JSValue::Bool(!crate::value::spec_strict_eq(lval, rval))))
    &&& (op == BinOp::Plus ==> (r matches Ok(v) && (!(lval is Ref) && !(rval is Ref) ==> plus_spec(lval, rval, v))))
    &&& (op == BinOp::Minus ==> r == Ok::<JSValue, Exception>(JSValue::Number(crate::number::sub_spec(primitive_num(lval), primitive_num(rval)))))
    &&& (op == BinOp::Star ==> r == Ok::<JSValue, Exception>(JSValue::Number(crate::number::mul_spec(primitive_num(lval), primitive_num(rval)))))
    &&& (op == BinOp::Slash ==> r == Ok::<JSValue, Exception>(JSValue::Number(crate::number::div_spec(primitive_num(lval), primitive_num(rval)))))
    &&& (op == BinOp::Percent ==> r == Ok::<JSValue, Exception>(JSValue::Number(crate::number::rem_spec(primitive_num(lval), primitive_num(rval)))))
    &&& (op == BinOp::Pipe ==> r == Ok::<JSValue, Exception>(int32_num(crate::number::spec_to_i32(primitive_num(lval)) | crate::number::spec_to_i32(primitive_num(rval)))))
    &&& (op == BinOp::Hat ==> r == Ok::<JSValue, Exception>(int32_num(crate::number::spec_to_i32(primitive_num(lval)) ^ crate::number::spec_to_i32(primitive_num(rval)))))
    &&& (op == BinOp::Ampersand ==> r == Ok::<JSValue, Exception>(int32_num(crate::number::spec_to_i32(primitive_num(lval)) & crate::number::spec_to_i32(primitive_num(rval)))))
    &&& (op == BinOp::EqEq ==> r == Ok::<JSValue, Exception>(JSValue::Bool(loose_full(heap.objects@, lval, rval))))
    &&& (op == BinOp::NotEq ==> r == Ok::<JSValue, Exception>(JSValue::Bool(!loose_full(heap.objects@, lval, rval))))
    &&& ({
        &&& op == BinOp::Less ==> r == Ok::<JSValue, Exception>(JSValue::Bool(less_spec(lval, rval)))
        &&& op == BinOp::Greater ==> r == Ok::<JSValue, Exception>(JSValue::Bool(less_spec(rval, lval)))
        &&& op == BinOp::LtEq ==> r == Ok::<JSValue, Exception>(JSValue::Bool(less_eq_spec(lval, rval)))
        &&& op == BinOp::GtEq ==> r == Ok::<JSValue, Exception>(JSValue::Bool(less_eq_spec(rval, lval)))
    })
    &&& (op == BinOp::In ==> (r is Err <==> !(rval is Ref)))
    &&& (op == BinOp::In ==> (rval matches JSValue::Ref(o) ==> r == Ok::<JSValue, Exception>(
        JSValue::Bool(chain_value(heap.objects@, o as int, value_text(heap.objects@, lval)) is Some),
    )))
    &&& (op == BinOp::Plus ==> (r matches Ok(v) && full_plus_spec(heap.objects@, lval, rval, v)))
    &&& (op == BinOp::LtLt ==> r == Ok::<JSValue, Exception>(int32_num(shl_spec(primitive_num(lval), primitive_num(rval)))))
    &&& (op == BinOp::GtGt ==> r == Ok::<JSValue, Exception>(int32_num(shr_spec(primitive_num(lval), primitive_num(rval)))))
    &&& (op == BinOp::GtGtGt ==> r == Ok::<JSValue, Exception>(JSValue::Number(Num::Int(ushr_spec(primitive_num(lval), primitive_num(rval)) as i64))))
    &&& (op == BinOp::InstanceOf && !(rval is Ref) ==> r is Err)
    &&& (op == BinOp::InstanceOf && rval is Ref && !(lval is Ref) && r is Ok ==> r->Ok_0 == JSValue::Bool(false))
    &&& (op == BinOp::InstanceOf ==> (rval matches JSValue::Ref(c) ==> match own_value(
        heap.objects@[c as int],
        seq!['p', 'r', 'o', 't', 'o', 't', 'y', 'p', 'e'],
    ) {
        Some(JSValue::Ref(p)) => match lval {
            JSValue::Ref(o) => r == Ok::<JSValue, Exception>(JSValue::Bool(
                chain_reaches(heap.objects@, heap.objects@[o as int].proto as int, p as int),
            )),
            _ => r == Ok::<JSValue, Exception>(JSValue::Bool(false)),
        },
        _ => r matches Err(Exception::TypeError(_)),
    }))
    &&& ((op == BinOp::In || op == BinOp::InstanceOf) && r is Ok ==> r->Ok_0 is Bool)
}

impl BinOp {
    /// Applies the operator to two values.
    pub fn compute(&self, lval: &JSValue, rval: &JSValue, heap: &Heap) -> (r: JSResult<JSValue>)
        requires
            heap.wf(),
            heap.valid(*lval),
            heap.valid(*rval),
        ensures
            compute_post(*self, *lval, *rval, *heap, r),
    {
        let a = heap.numberify(lval);
        let b = heap.numberify(rval);
        Ok(match self {
            BinOp::EqEq => JSValue::Bool(heap.loose_eq(lval, rval)),
            BinOp::NotEq => JSValue::Bool(!heap.loose_eq(lval, rval)),
            BinOp::EqEqEq => JSValue::Bool(JSValue::strict_eq(lval, rval)),
            BinOp::NotEqEq => JSValue::Bool(!JSValue::strict_eq(lval, rval)),
            BinOp::Less => JSValue::Bool(heap.less_than(lval, rval)),
            BinOp::Greater => JSValue::Bool(heap.less_than(rval, lval)),
            BinOp::LtEq => JSValue::Bool(heap.less_eq(lval, rval)),
            BinOp::GtEq => JSValue::Bool(heap.less_eq(rval, lval)),
            BinOp::Plus => heap.plus(lval, rval),
            BinOp::Minus => JSValue::Number(a.sub(&b)),
            BinOp::Star => JSValue::Number(a.mul(&b)),
            BinOp::Slash => JSValue::Number(a.div(&b)),
            BinOp::Percent => JSValue::Number(a.rem(&b)),
            BinOp::Pipe => int32_value(a.to_i32() | b.to_i32()),
            BinOp::Hat => int32_value(a.to_i32() ^ b.to_i32()),
            BinOp::Ampersand => int32_value(a.to_i32() & b.to_i32()),
            BinOp::LtLt => {
                let shift: u32 = (#[verifier::truncate] (b.to_i32() as u32)) % 32;
                let x: u32 = #[verifier::truncate] (a.to_i32() as u32);
                int32_value(#[verifier::truncate] ((x << shift) as i32))
            },
            BinOp::GtGt => {
                let shift: u32 = (#[verifier::truncate] (b.to_i32() as u32)) % 32;
                int32_value(a.to_i32() >> shift)
            },
            BinOp::GtGtGt => {
                let shift: u32 = (#[verifier::truncate] (b.to_i32() as u32)) % 32;
                let x: u32 = (#[verifier::truncate] (a.to_i32() as u32)) >> shift;
                JSValue::Number(Num::Int(x as i64))
            },
            BinOp::In => {
                let prop = heap.stringify(lval);
                let objref = rval.to_ref()?;
                JSValue::Bool(heap.lookup_value(objref, &prop).is_some())
            },
            BinOp::InstanceOf => {
                let constructor = rval.to_ref()?;
                proof {
                    reveal_strlit("prototype");
                    assert("prototype"@ =~= seq!['p', 'r', 'o', 't', 'o', 't', 'y', 'p', 'e']);
                    assert(heap.objects@[constructor as int].valid(heap.len()));
                }
                let prototype = match heap.objects[constructor].get_own_value(&String::from_str("prototype")) {
                    Some(JSValue::Ref(p)) => p,
                    _ => {
                        return Err(type_error("the right side of instanceof has no prototype"));
                    },
                };
                match lval {
                    JSValue::Ref(o) => JSValue::Bool(heap.has_in_chain(*o, prototype)),
                    _ => JSValue::Bool(false),
                }
            },
        })
    }
}

/// The heap with the location of the node being entered recorded.
pub open spec fn at_loc(h: Heap, loc: Option<Box<crate::source::Location>>) -> Heap {
    Heap {
        loc: match loc {
            Some(l) => Some(*l),
            None => None,
        },
        ..h
    }
}

/// Marks an intermediate heap and outcome of an evaluation; it selects the
/// intermediate states that the outcome relations below quantify over.
pub open spec fn stage<A, B>(a: A, b: B) -> bool {
    true
}

/// What reading `place` on heap `h` gives.
pub open spec fn read_outcome(h: Heap, place: Interpreted, r: JSResult<JSValue>) -> bool {
    match place {
        Interpreted::Value(v) => r == Ok::<JSValue, Exception>(v),
        Interpreted::Member { of, name } => match chain_value(h.objects@, of as int, name@) {
            Some(v) => r == Ok::<JSValue, Exception>(v),
            None => if of == GLOBAL {
                r matches Err(Exception::ReferenceError(_))
            } else {
                r == Ok::<JSValue, Exception>(JSValue::Undefined)
            },
        },
    }
}

/// The evaluation of `e` with budget `fuel` on heap `h` may end in heap `h2`
/// with outcome `r`: the big-step semantics of expressions, one relation per
/// kind of node, each naming the intermediate heaps and outcomes of its
/// parts.
pub open spec fn expr_outcome(h: Heap, e: Expression, fuel: nat, h2: Heap, r: JSResult<Interpreted>) -> bool
    decreases fuel, 0nat,
{
    if fuel == 0 {
        h2 == h && r matches Err(Exception::RangeError(_))
    } else {
        let h0 = at_loc(h, e.loc);
        let f = (fuel - 1) as nat;
        match e.expr {
            Expr::Literal(l) => h2 == h0 && r == Ok::<Interpreted, Exception>(Interpreted::Value(json_value(l.0))),
            Expr::Identifier(id) => h2 == h0 && r == Ok::<Interpreted, Exception>(
                Interpreted::Member { of: bound_in(h0, id.0@), name: id.0 },
            ),
            Expr::This => h2 == h0 && r == Ok::<Interpreted, Exception>(Interpreted::Value(this_value(h0))),
            Expr::BinaryOp(b) => binary_outcome(h0, *b, f, h2, r),
            Expr::LogicalOp(l) => logical_outcome(h0, *l, f, h2, r),
            Expr::Conditional(c) => conditional_outcome(h0, *c, f, h2, r),
            Expr::Assign(a) => assign_outcome(h0, *a, f, h2, r),
            Expr::Unary(u) => unary_outcome(h0, u, f, h2, r),
            Expr::Member(m) => member_outcome(h0, *m, f, h2, r),
            Expr::Update(u) => update_outcome(h0, *u, f, h2, r),
            Expr::Sequence(q) => sequence_outcome(h0, q, f, h2, r),
            Expr::Array(a) => array_outcome(h0, a, f, h2, r),
            Expr::Call(c) => call_outcome(h0, *c, f, h2, r),
            Expr::New(n) => new_outcome(h0, *n, f, h2, r),
            Expr::Object(o) => object_outcome(h0, o, f, h2, r),
            Expr::Function(fe) => function_outcome(h0, fe, h2, r),
        }
    }
}

/// The evaluation of `e` to a value: evaluate it, then read the place.
pub open spec fn value_outcome(h: Heap, e: Expression, fuel: nat, h2: Heap, r: JSResult<JSValue>) -> bool
    decreases fuel, 0nat,
{
    if fuel == 0 {
        h2 == h && r matches Err(Exception::RangeError(_))
    } else {
        exists|h1: Heap, p: JSResult<Interpreted>|
            #[trigger] stage(h1, p) && expr_outcome(h, e, (fuel - 1) as nat, h1, p) && h2 == h1 && match p {
                Ok(place) => read_outcome(h1, place, r),
                Err(x) => r == Err::<JSValue, Exception>(x),
            }
    }
}

/// `c ? a : b`: the condition, then the branch it selects.
pub open spec fn conditional_outcome(h: Heap, c: ConditionalExpression, fuel: nat, h2: Heap, r: JSResult<Interpreted>) -> bool
    decreases fuel, 0nat,
{
    if fuel == 0 {
        h2 == h && r matches Err(Exception::RangeError(_))
    } else {
        let f = (fuel - 1) as nat;
        exists|h1: Heap, r1: JSResult<JSValue>|
            #[trigger] stage(h1, r1) && value_outcome(h, c.condexpr, f, h1, r1) && match r1 {
                Err(x) => h2 == h1 && r == Err::<Interpreted, Exception>(x),
                Ok(v) => expr_outcome(h1, if truthy(v) { c.thenexpr } else { c.elseexpr }, f, h2, r),
            }
    }
}

/// `a && b` and `a || b`: the right side is evaluated only when the left
/// does not decide, and the value is the last operand evaluated.
pub open spec fn logical_outcome(h: Heap, l: LogicalExpression, fuel: nat, h2: Heap, r: JSResult<Interpreted>) -> bool
    decreases fuel, 0nat,
{
    if fuel == 0 {
        h2 == h && r matches Err(Exception::RangeError(_))
    } else {
        let f = (fuel - 1) as nat;
        exists|h1: Heap, r1: JSResult<JSValue>|
            #[trigger] stage(h1, r1) && value_outcome(h, l.0, f, h1, r1) && match r1 {
                Err(x) => h2 == h1 && r == Err::<Interpreted, Exception>(x),
                Ok(v1) => if truthy(v1) == (l.1 == BoolOp::And) {
                    exists|h3: Heap, r3: JSResult<JSValue>|
                        #[trigger] stage(h3, r3) && value_outcome(h1, l.2, f, h3, r3) && h2 == h3 && match r3 {
                            Err(x) => r == Err::<Interpreted, Exception>(x),
                            Ok(v2) => r == Ok::<Interpreted, Exception>(Interpreted::Value(v2)),
                        }
                } else {
                    h2 == h1 && r == Ok::<Interpreted, Exception>(Interpreted::Value(v1))
                },
            }
    }
}

/// Writing `v` to `place` after an assignment, whose value is `v`.
pub open spec fn put_then(h: Heap, place: Interpreted, v: JSValue, h2: Heap, r: JSResult<Interpreted>) -> bool {
    exists|ru: JSResult<()>|
        #[trigger] stage(h2, ru) && crate::heap::put_outcome(h, place, v, h2, ru) && match ru {
            Err(x) => r == Err::<Interpreted, Exception>(x),
            Ok(_) => r == Ok::<Interpreted, Exception>(Interpreted::Value(v)),
        }
}

/// `t = e` and `t op= e`: the right side first, then the target; a compound
/// operator combines the old value with the new one; the value written is
/// the result.
pub open spec fn assign_outcome(h: Heap, a: AssignmentExpression, fuel: nat, h2: Heap, r: JSResult<Interpreted>) -> bool
    decreases fuel, 0nat,
{
    if fuel == 0 {
        h2 == h && r matches Err(Exception::RangeError(_))
    } else {
        let f = (fuel - 1) as nat;
        exists|h1: Heap, r1: JSResult<JSValue>|
            #[trigger] stage(h1, r1) && value_outcome(h, a.2, f, h1, r1) && match r1 {
                Err(x) => h2 == h1 && r == Err::<Interpreted, Exception>(x),
                Ok(v) => exists|h3: Heap, p3: JSResult<Interpreted>|
                    #[trigger] stage(h3, p3) && expr_outcome(h1, a.0, f, h3, p3) && match p3 {
                        Err(x) => h2 == h3 && r == Err::<Interpreted, Exception>(x),
                        Ok(place) => match a.1.0 {
                            None => put_then(h3, place, v, h2, r),
                            Some(op) => exists|r4: JSResult<JSValue>, r5: JSResult<JSValue>|
                                #[trigger] stage(r4, r5) && read_outcome(h3, place, r4) && match r4 {
                                    Err(x) => h2 == h3 && r == Err::<Interpreted, Exception>(x),
                                    Ok(old) => compute_post(op, old, v, h3, r5) && match r5 {
                                        Err(x) => h2 == h3 && r == Err::<Interpreted, Exception>(x),
                                        Ok(nv) => put_then(h3, place, nv, h2, r),
                                    },
                                },
                        },
                    },
            }
    }
}

/// `op e`: `void` gives undefined, `typeof` gives the type's name (or
/// "undefined" when the name is unbound), `delete` deletes the place, and
/// the others apply to the value.
pub open spec fn unary_outcome(h: Heap, u: UnaryExpression, fuel: nat, h2: Heap, r: JSResult<Interpreted>) -> bool
    decreases fuel, 0nat,
{
    if fuel == 0 {
        h2 == h && r matches Err(Exception::RangeError(_))
    } else {
        let f = (fuel - 1) as nat;
        exists|h1: Heap, p1: JSResult<Interpreted>|
            #[trigger] stage(h1, p1) && expr_outcome(h, *u.1, f, h1, p1) && match p1 {
                Err(x) => h2 == h1 && r == Err::<Interpreted, Exception>(x),
                Ok(place) => match u.0 {
                    UnOp::Void => h2 == h1 && r == Ok::<Interpreted, Exception>(Interpreted::Value(JSValue::Undefined)),
                    UnOp::Delete => exists|b: bool|
                        #[trigger] stage(h2, b) && crate::heap::delete_outcome(h1, place, h2, b)
                            && r == Ok::<Interpreted, Exception>(Interpreted::Value(JSValue::Bool(b))),
                    UnOp::Typeof => h2 == h1 && exists|rv: JSResult<JSValue>|
                        #[trigger] stage(h1, rv) && read_outcome(h1, place, rv)
                            && (r matches Ok(Interpreted::Value(JSValue::String(t))) && t@ == match rv {
                                Ok(v) => crate::heap::typeof_text(h1.objects@, v),
                                Err(_) => seq!['u', 'n', 'd', 'e', 'f', 'i', 'n', 'e', 'd'],
                            }),
                    _ => h2 == h1 && exists|rv: JSResult<JSValue>|
                        #[trigger] stage(h1, rv) && read_outcome(h1, place, rv) && match rv {
                            Err(x) => r == Err::<Interpreted, Exception>(x),
                            Ok(v) => r == Ok::<Interpreted, Exception>(Interpreted::Value(unary_spec(u.0, v))),
                        },
                },
            }
    }
}

/// `o.p` and `o[e]`: a computed name first (converted to its text), then
/// the object, then the place `member_post` gives.
pub open spec fn member_outcome(h: Heap, m: MemberExpression, fuel: nat, h2: Heap, r: JSResult<Interpreted>) -> bool
    decreases fuel, 0nat,
{
    if fuel == 0 {
        h2 == h && r matches Err(Exception::RangeError(_))
    } else {
        let f = (fuel - 1) as nat;
        if m.2 {
            exists|h1: Heap, r1: JSResult<JSValue>|
                #[trigger] stage(h1, r1) && value_outcome(h, m.1, f, h1, r1) && match r1 {
                    Err(x) => h2 == h1 && r == Err::<Interpreted, Exception>(x),
                    Ok(pv) => exists|h3: Heap, r3: JSResult<JSValue>|
                            #[trigger] stage(h3, r3) && value_outcome(h1, m.0, f, h3, r3) && match r3 {
                                Err(x) => h2 == h3 && r == Err::<Interpreted, Exception>(x),
                                Ok(base) => member_post(h3, base, crate::heap::value_text(h1.objects@, pv), h2, r),
                            },
                }
        } else {
            match m.1.expr {
                Expr::Identifier(id) => exists|h3: Heap, r3: JSResult<JSValue>|
                    #[trigger] stage(h3, r3) && value_outcome(h, m.0, f, h3, r3) && match r3 {
                        Err(x) => h2 == h3 && r == Err::<Interpreted, Exception>(x),
                        Ok(base) => member_post(h3, base, id.0@, h2, r),
                    },
                _ => h2 == h && r matches Err(Exception::SyntaxTreeError(_)),
            }
        }
    }
}

/// The variables from `i` on hoisted into scope `scope`: a name the scope
/// does not bind yet is bound to `undefined`, a bound one keeps its value.
pub open spec fn vars_outcome(h: Heap, scope: int, vars: Seq<Identifier>, i: nat, h2: Heap) -> bool
    decreases vars.len() - i,
{
    if i >= vars.len() {
        h2 == h
    } else if own_value(h.objects@[scope], vars[i as int].0@) is Some {
        vars_outcome(h, scope, vars, i + 1, h2)
    } else {
        exists|hd: Heap|
            #[trigger] stage(hd, i) && crate::heap::defined(h, scope, vars[i as int].0@, JSValue::Undefined, Access { write: true, enumerable: true, configurable: false }, hd)
                && vars_outcome(hd, scope, vars, i + 1, h2)
    }
}

/// The functions from `j` on hoisted into scope `scope`: each name is bound
/// to a fresh closure of its declaration over the current scope (see
/// `function_made`).
pub open spec fn funcs_outcome(h: Heap, scope: int, funcs: Seq<FunctionDeclaration>, j: nat, h2: Heap, r: JSResult<()>) -> bool
    decreases funcs.len() - j,
{
    if j >= funcs.len() {
        h2 == h && r == Ok::<(), Exception>(())
    } else if !(h.objects@.len() + 8 < usize::MAX) {
        h2 == h && r matches Err(Exception::RangeError(_))
    } else {
        exists|hf: Heap, hd: Heap|
            #[trigger] stage(hf, hd) && crate::heap::function_made(h, funcs[j as int].function.func, hf)
                && crate::heap::defined(hf, scope, funcs[j as int].id.0@, JSValue::Ref(h.objects@.len() as usize), Access { write: true, enumerable: true, configurable: false }, hd)
                && funcs_outcome(hd, scope, funcs, j + 1, h2, r)
    }
}

/// What `declare` may do (see `Heap::declare`).
pub open spec fn declare_outcome(h: Heap, vars: Seq<Identifier>, funcs: Seq<FunctionDeclaration>, h2: Heap, r: JSResult<()>) -> bool {
    &&& unit_step(h, h2, r)
    &&& exists|hv: Heap|
        #[trigger] stage(hv, vars) && vars_outcome(h, h.scope as int, vars, 0, hv)
            && funcs_outcome(hv, h.scope as int, funcs, 0, h2, r)
    &&& h.objects@.len() + 2 * funcs.len() + 8 < usize::MAX ==> r is Ok
    &&& !(r matches Err(Exception::Jump(_)))
    &&& r is Ok && !(h.objects@[h.scope as int].payload is Array) && !(h.objects@[h.scope as int].payload is Str) ==> {
        let s = h2.objects@[h2.scope as int];
        &&& forall|k: int| 0 <= k < vars.len() ==> binds(s, #[trigger] vars[k].0@)
        &&& forall|k: int| 0 <= k < funcs.len() ==> binds(s, #[trigger] funcs[k].id.0@)
    }
}

/// Heap `hs` is heap `h` with a fresh, empty scope entered: its parent is
/// the scope of `h` and its receiver the receiver of `h`.
pub open spec fn entered(h: Heap, hs: Heap) -> bool {
    let n = h.objects@.len();
    &&& hs.objects@.len() == n + 1
    &&& forall|i: int| 0 <= i < n ==> hs.objects@[i] == h.objects@[i]
    &&& hs.scope == n
    &&& hs.loc == h.loc
    &&& hs.objects@[n as int].payload matches Payload::Scope(f) && f.saved_scope == h.scope && f.this_ref == this_value(h)
    &&& hs.objects@[n as int].properties@.len() == 0
}

/// A statement's evaluation with budget `fuel` on heap `h` may end in heap
/// `h2` with outcome `r`: one relation per kind of statement.
pub open spec fn stmt_outcome(h: Heap, s: Statement, fuel: nat, h2: Heap, r: JSResult<Interpreted>) -> bool
    decreases fuel, 0nat,
{
    if fuel == 0 {
        h2 == h && r matches Err(Exception::RangeError(_))
    } else {
        let h0 = at_loc(h, s.loc);
        let f = (fuel - 1) as nat;
        match s.stmt {
            Stmt::Empty => h2 == h0 && r == Ok::<Interpreted, Exception>(Interpreted::Value(JSValue::Undefined)),
            Stmt::Expr(es) => exprstmt_outcome(h0, es, f, h2, r),
            Stmt::Block(b) => block_outcome(h0, b, f, h2, r),
            Stmt::If(i) => if_outcome(h0, *i, f, h2, r),
            Stmt::Return(rs) => return_outcome(h0, rs, f, h2, r),
            Stmt::Throw(t) => throw_outcome(h0, t, f, h2, r),
            Stmt::Try(t) => try_outcome(h0, t, f, h2, r),
            Stmt::Switch(sw) => switch_outcome(h0, sw, f, h2, r),
            Stmt::For(fs) => if f == 0 {
                h2 == h0 && r matches Err(Exception::RangeError(_))
            } else {
                run_for_outcome(h0, *fs, None, (f - 1) as nat, h2, r)
            },
            Stmt::Label(l) => label_outcome(h0, *l, f, h2, r),
            Stmt::Break(b) => h2 == h0 && r == Err::<Interpreted, Exception>(Exception::Jump(Jump::Break(b.0))),
            Stmt::Continue(c) => h2 == h0 && r == Err::<Interpreted, Exception>(Exception::Jump(Jump::Continue(c.0))),
            Stmt::Variable(v) => if f == 0 {
                h2 == h0 && r matches Err(Exception::RangeError(_))
            } else {
                decls_outcome(h0, v.declarations@, (f - 1) as nat, h2, r)
            },
            Stmt::Function(_) => h2 == h0 && r == Ok::<Interpreted, Exception>(Interpreted::Value(JSValue::Undefined)),
            Stmt::ForIn(fi) => if f == 0 {
                h2 == h0 && r matches Err(Exception::RangeError(_))
            } else {
                forin_outcome(h0, *fi, None, (f - 1) as nat, h2, r)
            },
        }
    }
}

/// An expression statement: its value.
pub open spec fn exprstmt_outcome(h: Heap, es: ExpressionStatement, f: nat, h2: Heap, r: JSResult<Interpreted>) -> bool
    decreases f, 0nat,
{
    if f == 0 {
        h2 == h && r matches Err(Exception::RangeError(_))
    } else {
        exists|h1: Heap, r1: JSResult<JSValue>|
            #[trigger] stage(h1, r1) && value_outcome(h, es.expression, (f - 1) as nat, h1, r1) && h2 == h1 && match r1 {
                Err(x) => r == Err::<Interpreted, Exception>(x),
                Ok(v) => r == Ok::<Interpreted, Exception>(Interpreted::Value(v)),
            }
    }
}

/// `if`: the test, then the branch it selects.
pub open spec fn if_outcome(h: Heap, i: IfStatement, f: nat, h2: Heap, r: JSResult<Interpreted>) -> bool
    decreases f, 0nat,
{
    if f == 0 {
        h2 == h && r matches Err(Exception::RangeError(_))
    } else {
        let g = (f - 1) as nat;
        exists|h1: Heap, r1: JSResult<JSValue>|
            #[trigger] stage(h1, r1) && value_outcome(h, i.test, g, h1, r1) && match r1 {
                Err(x) => h2 == h1 && r == Err::<Interpreted, Exception>(x),
                Ok(v) => if truthy(v) {
                    stmt_outcome(h1, i.consequent, g, h2, r)
                } else {
                    match i.alternate {
                        Some(a) => stmt_outcome(h1, a, g, h2, r),
                        None => h2 == h1 && r == Ok::<Interpreted, Exception>(Interpreted::Value(JSValue::Undefined)),
                    }
                },
            }
    }
}

/// `return`: the value, carried by a return jump.
pub open spec fn return_outcome(h: Heap, rs: ReturnStatement, f: nat, h2: Heap, r: JSResult<Interpreted>) -> bool
    decreases f, 0nat,
{
    if f == 0 {
        h2 == h && r matches Err(Exception::RangeError(_))
    } else {
        match rs.0 {
            None => h2 == h && r == Err::<Interpreted, Exception>(Exception::Jump(Jump::Return(JSValue::Undefined))),
            Some(e) => exists|h1: Heap, r1: JSResult<JSValue>|
                #[trigger] stage(h1, r1) && value_outcome(h, e, (f - 1) as nat, h1, r1) && h2 == h1 && match r1 {
                    Err(x) => r == Err::<Interpreted, Exception>(x),
                    Ok(v) => r == Err::<Interpreted, Exception>(Exception::Jump(Jump::Return(v))),
                },
        }
    }
}

/// `throw`: the value, thrown.
pub open spec fn throw_outcome(h: Heap, t: ThrowStatement, f: nat, h2: Heap, r: JSResult<Interpreted>) -> bool
    decreases f, 0nat,
{
    if f == 0 {
        h2 == h && r matches Err(Exception::RangeError(_))
    } else {
        exists|h1: Heap, r1: JSResult<JSValue>|
            #[trigger] stage(h1, r1) && value_outcome(h, t.0, (f - 1) as nat, h1, r1) && h2 == h1 && match r1 {
                Err(x) => r == Err::<Interpreted, Exception>(x),
                Ok(v) => r == Err::<Interpreted, Exception>(Exception::UserThrown(v)),
            }
    }
}

/// A `catch` clause run for `exc`: a fresh child scope is entered, the
/// parameter is bound there to what `caught_value` gives, the body runs,
/// and the scope is left again.
pub open spec fn catch_outcome(h: Heap, c: CatchClause, exc: Exception, fuel: nat, h2: Heap, r: JSResult<Interpreted>) -> bool
    decreases fuel, 0nat,
{
    if fuel == 0 {
        h2 == h && r matches Err(Exception::RangeError(_))
    } else if !(h.objects@.len() + 8 < usize::MAX) {
        h2 == h && r matches Err(Exception::RangeError(_))
    } else {
        exists|hs: Heap, h3: Heap, r3: JSResult<Interpreted>|
            #[trigger] stage(hs, (h3, r3)) && entered(h, hs) && bind_outcome(hs, c, exc, (fuel - 1) as nat, h3, r3)
                && h2 == (Heap { scope: h.scope, ..h3 }) && r == r3
    }
}

/// Inside the handler's scope: bind the parameter, then run the body.
pub open spec fn bind_outcome(h: Heap, c: CatchClause, exc: Exception, fuel: nat, h2: Heap, r: JSResult<Interpreted>) -> bool
    decreases fuel, 0nat,
{
    if fuel == 0 {
        h2 == h && r matches Err(Exception::RangeError(_))
    } else {
        exists|h1: Heap, rv: JSResult<JSValue>|
            #[trigger] stage(h1, rv) && caught_outcome(h, exc, h1, rv) && match rv {
                Err(x) => h2 == h1 && r == Err::<Interpreted, Exception>(x),
                Ok(v) => exists|hd: Heap|
                    #[trigger] stage(hd, v) && crate::heap::defined(h1, h1.scope as int, c.param.0@, v, Access { write: true, enumerable: true, configurable: false }, hd)
                        && block_outcome(hd, c.body, (fuel - 1) as nat, h2, r),
            }
    }
}

/// The outcome a `try` holds before its finalizer: the block's, except that
/// a thrown value or a diagnostic error goes to the handler, if any; jumps
/// pass the handler by.
pub open spec fn pending_outcome(hb: Heap, rb: JSResult<Interpreted>, handler: Option<CatchClause>, f: nat, hp: Heap, pend: JSResult<Interpreted>) -> bool
    decreases f, 1nat,
{
    match rb {
        Ok(v) => hp == hb && pend == Ok::<Interpreted, Exception>(v),
        Err(Exception::Jump(j)) => hp == hb && pend == Err::<Interpreted, Exception>(Exception::Jump(j)),
        Err(e) => match handler {
            None => hp == hb && pend == Err::<Interpreted, Exception>(e),
            Some(c) => catch_outcome(hb, c, e, f, hp, pend),
        },
    }
}

/// The finalizer, if any, runs once; its exception supersedes the pending
/// outcome, which otherwise stands.
pub open spec fn finish_outcome(h: Heap, finalizer: Option<BlockStatement>, pend: JSResult<Interpreted>, f: nat, h2: Heap, r: JSResult<Interpreted>) -> bool
    decreases f, 1nat,
{
    match finalizer {
        None => h2 == h && r == pend,
        Some(b) => if f <= 1 {
            h2 == h && r matches Err(Exception::RangeError(_))
        } else {
            exists|hf: Heap, rf: JSResult<Interpreted>|
                #[trigger] stage(hf, rf) && block_outcome(h, b, (f - 2) as nat, hf, rf) && h2 == hf && match rf {
                    Err(x) => r == Err::<Interpreted, Exception>(x),
                    Ok(_) => r == pend,
                }
        },
    }
}

/// `try`: the block, then the handler if it applies, then the finalizer.
pub open spec fn try_outcome(h: Heap, t: TryStatement, fuel: nat, h2: Heap, r: JSResult<Interpreted>) -> bool
    decreases fuel, 0nat,
{
    if fuel == 0 {
        h2 == h && r matches Err(Exception::RangeError(_))
    } else {
        let f = (fuel - 1) as nat;
        exists|hb: Heap, rb: JSResult<Interpreted>, hp: Heap, pend: JSResult<Interpreted>|
            #[trigger] stage((hb, rb), (hp, pend)) && block_outcome(h, t.block, f, hb, rb)
                && pending_outcome(hb, rb, t.handler, f, hp, pend) && finish_outcome(hp, t.finalizer, pend, f, h2, r)
    }
}

/// `var` declarations: each initialised declarator, in order, evaluates
/// its initialiser and assigns it to the binding the scope chain already
/// has for the name; a name with no binding is a reference error.
pub open spec fn decls_outcome(h: Heap, ds: Seq<crate::ast::VariableDeclarator>, f: nat, h2: Heap, r: JSResult<Interpreted>) -> bool
    decreases f, ds.len() + 1,
{
    if ds.len() == 0 {
        h2 == h && r == Ok::<Interpreted, Exception>(Interpreted::Value(JSValue::Undefined))
    } else {
        match ds[0].init {
            None => decls_outcome(h, ds.drop_first(), f, h2, r),
            Some(e) => exists|h1: Heap, r1: JSResult<JSValue>, hw: Heap|
                #[trigger] stage(h1, (r1, hw)) && value_outcome(h, *e, f, h1, r1) && match r1 {
                    Err(x) => h2 == h1 && r == Err::<Interpreted, Exception>(x),
                    Ok(v) => match binding_scope(h1.objects@, h1.scope as int, ds[0].name.0@) {
                        Some(of) => crate::heap::only_changed(h1, of, hw)
                            && crate::heap::assigned(h1.objects@[of], ds[0].name.0, v, hw.objects@[of])
                            && decls_outcome(hw, ds.drop_first(), f, h2, r),
                        None => h2 == h1 && r matches Err(Exception::ReferenceError(_)),
                    },
                },
        }
    }
}

/// A program: its top-level names are declared in the current scope, then
/// its body runs as a block.
pub open spec fn program_outcome(h: Heap, p: Program, fuel: nat, h2: Heap, r: JSResult<Interpreted>) -> bool {
    if fuel == 0 {
        h2 == h && r matches Err(Exception::RangeError(_))
    } else {
        exists|h1: Heap, ru: JSResult<()>|
            #[trigger] stage(h1, ru) && declare_outcome(h, p.variables@, p.functions@, h1, ru) && match ru {
                Err(x) => h2 == h1 && r == Err::<Interpreted, Exception>(x),
                Ok(_) => block_outcome(h1, p.body, (fuel - 1) as nat, h2, r),
            }
    }
}

/// An optional index as a natural number.
pub open spec fn opt_nat(o: Option<usize>) -> Option<nat> {
    match o {
        Some(d) => Some(d as nat),
        None => None,
    }
}

/// The statements of the cases from `k` on, in order: where a `switch`
/// falls through to.
pub open spec fn flat_cases(cases: Seq<crate::ast::SwitchCase>, k: nat) -> Seq<Statement>
    decreases cases.len() - k,
{
    if k >= cases.len() {
        Seq::empty()
    } else {
        cases[k as int].consequent@ + flat_cases(cases, k + 1)
    }
}

/// The search of a `switch`: the tests of the cases from `i` on, in order,
/// compared by `===` with `sv`, until one matches; it gives the index to
/// start at: the matching case, else the default case, else past the end.
pub open spec fn search_outcome(h: Heap, cases: Seq<crate::ast::SwitchCase>, i: nat, sv: JSValue, default: Option<nat>, f: nat, h2: Heap, res: Result<nat, Exception>) -> bool
    decreases f, cases.len() - i + 1,
{
    if i >= cases.len() {
        h2 == h && res == Ok::<nat, Exception>(match default {
            Some(d) => d,
            None => cases.len(),
        })
    } else {
        match cases[i as int].test {
            None => search_outcome(h, cases, i + 1, sv, Some(i), f, h2, res),
            Some(t) => exists|hk: Heap, rk: JSResult<JSValue>|
                #[trigger] stage(hk, rk) && value_outcome(h, t, f, hk, rk) && match rk {
                    Err(x) => h2 == hk && res == Err::<nat, Exception>(x),
                    Ok(cv) => if crate::value::spec_strict_eq(sv, cv) {
                        h2 == hk && res == Ok::<nat, Exception>(i)
                    } else {
                        search_outcome(hk, cases, i + 1, sv, default, f, h2, res)
                    },
                },
        }
    }
}

/// Statements of a `switch` run in order; an unlabelled `break` ends the
/// `switch` normally, any other failure ends it with that failure.
pub open spec fn fall_outcome(h: Heap, stmts: Seq<Statement>, f: nat, h2: Heap, r: JSResult<Interpreted>) -> bool
    decreases f, stmts.len() + 1,
{
    if stmts.len() == 0 {
        h2 == h && r == Ok::<Interpreted, Exception>(Interpreted::Value(JSValue::Undefined))
    } else {
        exists|h1: Heap, r1: JSResult<Interpreted>|
            #[trigger] stage(h1, r1) && stmt_outcome(h, stmts[0], f, h1, r1) && match r1 {
                Ok(_) => fall_outcome(h1, stmts.drop_first(), f, h2, r),
                Err(Exception::Jump(Jump::Break(None))) => h2 == h1
                    && r == Ok::<Interpreted, Exception>(Interpreted::Value(JSValue::Undefined)),
                Err(x) => h2 == h1 && r == Err::<Interpreted, Exception>(x),
            }
    }
}

/// `switch`: the discriminant, the search, then the statements from the
/// selected case to the end, falling through.
pub open spec fn switch_outcome(h: Heap, sw: SwitchStatement, fuel: nat, h2: Heap, r: JSResult<Interpreted>) -> bool
    decreases fuel, 0nat,
{
    if fuel == 0 {
        h2 == h && r matches Err(Exception::RangeError(_))
    } else {
        let f = (fuel - 1) as nat;
        exists|h1: Heap, r1: JSResult<JSValue>, hk: Heap, res: Result<nat, Exception>|
            #[trigger] stage((h1, r1), (hk, res)) && value_outcome(h, sw.discriminant, f, h1, r1) && match r1 {
                Err(x) => h2 == h1 && r == Err::<Interpreted, Exception>(x),
                Ok(sv) => search_outcome(h1, sw.cases@, 0, sv, None, f, hk, res) && match res {
                    Err(x) => h2 == hk && r == Err::<Interpreted, Exception>(x),
                    Ok(start) => fall_outcome(hk, flat_cases(sw.cases@, start), f, h2, r),
                },
            }
    }
}

/// The test of a `for` loop; a missing test is true.
pub open spec fn test_outcome(h: Heap, test: Option<Expression>, g: nat, h2: Heap, r: JSResult<bool>) -> bool
    decreases g, 0nat,
{
    match test {
        None => h2 == h && r == Ok::<bool, Exception>(true),
        Some(t) => if g == 0 {
            h2 == h && r matches Err(Exception::RangeError(_))
        } else {
            exists|h1: Heap, r1: JSResult<JSValue>|
                #[trigger] stage(h1, r1) && value_outcome(h, t, (g - 1) as nat, h1, r1) && h2 == h1 && match r1 {
                    Err(x) => r == Err::<bool, Exception>(x),
                    Ok(v) => r == Ok::<bool, Exception>(truthy(v)),
                }
        },
    }
}

/// The update of a `for` loop, if any.
pub open spec fn step_outcome(h: Heap, update: Option<Expression>, g: nat, h2: Heap, r: JSResult<()>) -> bool
    decreases g, 0nat,
{
    if g == 0 {
        h2 == h && r matches Err(Exception::RangeError(_))
    } else {
        match update {
            None => h2 == h && r == Ok::<(), Exception>(()),
            Some(u) => exists|h1: Heap, p1: JSResult<Interpreted>|
                #[trigger] stage(h1, p1) && expr_outcome(h, u, (g - 1) as nat, h1, p1) && h2 == h1 && match p1 {
                    Err(x) => r == Err::<(), Exception>(x),
                    Ok(_) => r == Ok::<(), Exception>(()),
                },
        }
    }
}

/// The iterations of a `for` loop from iteration `count` on: test, body,
/// then update, until the test is false, the body leaves the loop (as
/// `loop_control` says), or the iteration limit is reached.
pub open spec fn iter_outcome(h: Heap, fs: ForStatement, label: Option<&Identifier>, g: nat, count: nat, h2: Heap, r: JSResult<Interpreted>) -> bool
    decreases g, LOOP_LIMIT - count + 1,
{
    if count >= LOOP_LIMIT {
        h2 == h && r matches Err(Exception::RangeError(_))
    } else {
        exists|ht: Heap, rt: JSResult<bool>, hb: Heap, rb: JSResult<Interpreted>, hu: Heap, ru: JSResult<()>|
            #[trigger] stage((ht, rt), ((hb, rb), (hu, ru))) && test_outcome(h, fs.test, g, ht, rt) && match rt {
                Err(x) => h2 == ht && r == Err::<Interpreted, Exception>(x),
                Ok(false) => h2 == ht && r == Ok::<Interpreted, Exception>(Interpreted::Value(JSValue::Undefined)),
                Ok(true) => stmt_outcome(ht, fs.body, g, hb, rb) && match loop_control(rb, label) {
                    LoopControl::Exit(x) => h2 == hb && r == x,
                    LoopControl::Next => step_outcome(hb, fs.update, g, hu, ru) && match ru {
                        Err(x) => h2 == hu && r == Err::<Interpreted, Exception>(x),
                        Ok(_) => iter_outcome(hu, fs, label, g, count + 1, h2, r),
                    },
                },
            }
    }
}

/// A `for` loop without its `init`.
pub open spec fn loop_outcome_spec(h: Heap, fs: ForStatement, label: Option<&Identifier>, fuel: nat, h2: Heap, r: JSResult<Interpreted>) -> bool
    decreases fuel, 0nat,
{
    if fuel == 0 {
        h2 == h && r matches Err(Exception::RangeError(_))
    } else {
        iter_outcome(h, fs, label, (fuel - 1) as nat, 0, h2, r)
    }
}

/// A `for` loop: `init` once, then the loop.
pub open spec fn run_for_outcome(h: Heap, fs: ForStatement, label: Option<&Identifier>, fuel: nat, h2: Heap, r: JSResult<Interpreted>) -> bool
    decreases fuel, 1nat,
{
    if fuel == 0 {
        h2 == h && r matches Err(Exception::RangeError(_))
    } else {
        exists|hi: Heap, ri: JSResult<Interpreted>|
            #[trigger] stage(hi, ri) && stmt_outcome(h, fs.init, (fuel - 1) as nat, hi, ri) && match ri {
                Err(x) => h2 == hi && r == Err::<Interpreted, Exception>(x),
                Ok(_) => loop_outcome_spec(hi, fs, label, (fuel - 1) as nat, h2, r),
            }
    }
}

/// A labelled statement: a labelled `for` or `for-in` loop runs with the
/// label (so `continue` and `break` aimed at it act on the loop), any other
/// body runs as it is; then `label_post` settles a jump aimed at the label.
pub open spec fn label_outcome(h: Heap, l: LabelStatement, fuel: nat, h2: Heap, r: JSResult<Interpreted>) -> bool
    decreases fuel, 0nat,
{
    if fuel == 0 {
        h2 == h && r matches Err(Exception::RangeError(_))
    } else {
        let f = (fuel - 1) as nat;
        match l.1.stmt {
            Stmt::For(fs) => exists|hb: Heap, rb: JSResult<Interpreted>|
                #[trigger] stage(hb, rb) && (if f == 0 {
                    hb == h && rb matches Err(Exception::RangeError(_))
                } else {
                    run_for_outcome(h, *fs, Some(&l.0), (f - 1) as nat, hb, rb)
                }) && h2 == hb && label_post(rb, l.0, r),
            Stmt::ForIn(fi) => exists|hb: Heap, rb: JSResult<Interpreted>|
                #[trigger] stage(hb, rb) && (if f == 0 {
                    hb == h && rb matches Err(Exception::RangeError(_))
                } else {
                    forin_outcome(h, *fi, Some(&l.0), (f - 1) as nat, hb, rb)
                }) && h2 == hb && label_post(rb, l.0, r),
            _ => exists|hb: Heap, rb: JSResult<Interpreted>|
                #[trigger] stage(hb, rb) && stmt_outcome(h, l.1, f, hb, rb) && h2 == hb && label_post(rb, l.0, r),
        }
    }
}

/// What `objectify` gives (see `Heap::objectify`).
pub open spec fn objectify_post(h: Heap, v: JSValue, h2: Heap, r: JSResult<ObjectId>) -> bool {
    &&& h2.grows_from(h)
    &&& r matches Ok(id) ==> 1 <= id < h2.len()
    &&& v matches JSValue::Ref(id) ==> r == Ok::<ObjectId, Exception>(id) && h2 == h
    &&& (v is Undefined || v is Null) ==> r is Err
    &&& r matches Err(e) ==> e is TypeError && h2 == h
    &&& !(v is Ref) && r is Ok ==> wrapped(h, v, h2, r->Ok_0)
    &&& !(v is Undefined) && !(v is Null) && h.len() + 8 < usize::MAX ==> r is Ok
}

/// The value a `for-in` loop gives its target for `name`: on an array an
/// index is a number, any other name is a string.
pub open spec fn key_is(isarr: bool, name: Seq<char>, kv: JSValue) -> bool {
    if isarr && crate::text::index_name(name) is Some {
        kv == JSValue::Number(crate::number::num_of(crate::text::index_name(name)->Some_0 as int))
    } else {
        kv matches JSValue::String(t) && t@ == name
    }
}

/// The place a `for-in` loop writes each name to.
pub open spec fn target_outcome(h: Heap, left: ForInTarget, f: nat, ht: Heap, pt: JSResult<Interpreted>) -> bool
    decreases f, 1nat,
{
    match left {
        ForInTarget::Expr(e) => expr_outcome(h, e, f, ht, pt),
        ForInTarget::Var(decl) => if decl.declarations@.len() == 0 {
            ht == h && pt matches Err(Exception::SyntaxTreeError(_))
        } else {
            ht == h && pt == Ok::<Interpreted, Exception>(Interpreted::Member {
                of: bound_in(h, decl.declarations@[0].name.0@),
                name: decl.declarations@[0].name.0,
            })
        },
    }
}

/// The objects of the prototype chain from `obj` on, each with its own
/// names as they are when the walk reaches it.
pub open spec fn chain_outcome(h: Heap, fi: ForInStatement, label: Option<&Identifier>, f: nat, obj: nat, visited: Seq<Seq<char>>, count: nat, h2: Heap, r: JSResult<Interpreted>) -> bool
    decreases f, obj + 3, 0nat,
{
    if obj == 0 || obj >= h.objects@.len() {
        h2 == h && r == Ok::<Interpreted, Exception>(Interpreted::Value(JSValue::Undefined))
    } else {
        names_outcome(h, fi, label, f, obj, crate::object::own_names(h.objects@[obj as int]), h.objects@[obj as int].payload is Array, 0, visited, count, h2, r)
    }
}

/// The names of object `obj` from `j` on. A name seen before (on this or an
/// earlier object, enumerable or not) is passed over; each new one counts
/// towards the loop limit and, if it is still enumerable, is written to the
/// target, the body runs, and `loop_control` decides whether to go on. After
/// the last name the walk goes on with the prototype.
pub open spec fn names_outcome(h: Heap, fi: ForInStatement, label: Option<&Identifier>, f: nat, obj: nat, keys: Seq<Seq<char>>, isarr: bool, j: nat, visited: Seq<Seq<char>>, count: nat, h2: Heap, r: JSResult<Interpreted>) -> bool
    decreases f, obj + 2, (if j <= keys.len() { keys.len() - j + 1 } else { 1 }),
{
    if j >= keys.len() {
        let p = h.objects@[obj as int].proto;
        if p < obj {
            chain_outcome(h, fi, label, f, p as nat, visited, count, h2, r)
        } else {
            h2 == h && r == Ok::<Interpreted, Exception>(Interpreted::Value(JSValue::Undefined))
        }
    } else {
        let name = keys[j as int];
        if visited.contains(name) {
            names_outcome(h, fi, label, f, obj, keys, isarr, j + 1, visited, count, h2, r)
        } else if count >= LOOP_LIMIT {
            h2 == h && r matches Err(Exception::RangeError(_))
        } else if !crate::object::still_enum(h.objects@[obj as int], name) {
            names_outcome(h, fi, label, f, obj, keys, isarr, j + 1, visited.push(name), count + 1, h2, r)
        } else {
            exists|ht: Heap, pt: JSResult<Interpreted>, kv: JSValue, hp: Heap, ru: JSResult<()>, hb: Heap, rb: JSResult<Interpreted>|
                #[trigger] stage((ht, pt), (kv, (hp, (ru, (hb, rb))))) && key_is(isarr, name, kv)
                    && target_outcome(h, fi.left, f, ht, pt) && match pt {
                    Err(x) => h2 == ht && r == Err::<Interpreted, Exception>(x),
                    Ok(place) => crate::heap::put_outcome(ht, place, kv, hp, ru) && match ru {
                        Err(x) => h2 == hp && r == Err::<Interpreted, Exception>(x),
                        Ok(_) => stmt_outcome(hp, fi.body, f, hb, rb) && match loop_control(rb, label) {
                            LoopControl::Exit(x) => h2 == hb && r == x,
                            LoopControl::Next => names_outcome(hb, fi, label, f, obj, keys, isarr, j + 1, visited.push(name), count + 1, h2, r),
                        },
                    },
                }
        }
    }
}

/// `for (t in e) body` (labelled `label`, if any): the right side; for
/// `undefined` or `null` nothing more; otherwise it is made an object and its
/// prototype chain is walked (see `chain_outcome`).
pub open spec fn forin_outcome(h: Heap, fi: ForInStatement, label: Option<&Identifier>, fuel: nat, h2: Heap, r: JSResult<Interpreted>) -> bool
    decreases fuel, 1nat,
{
    if fuel == 0 {
        h2 == h && r matches Err(Exception::RangeError(_))
    } else {
        let f = (fuel - 1) as nat;
        exists|h1: Heap, r1: JSResult<JSValue>, hs: Heap, rs: JSResult<ObjectId>|
            #[trigger] stage((h1, r1), (hs, rs)) && value_outcome(h, fi.right, f, h1, r1) && match r1 {
                Err(x) => h2 == h1 && r == Err::<Interpreted, Exception>(x),
                Ok(v) => if v is Undefined || v is Null {
                    h2 == h1 && r == Ok::<Interpreted, Exception>(Interpreted::Value(JSValue::Undefined))
                } else {
                    objectify_post(h1, v, hs, rs) && match rs {
                        Err(x) => h2 == hs && r == Err::<Interpreted, Exception>(x),
                        Ok(start) => chain_outcome(hs, fi, label, f, start as nat, Seq::empty(), 0, h2, r),
                    }
                },
            }
    }
}

/// With a finalizer, `try` runs the block, then the handler where one
/// applies, then the finalizer exactly once; if the finalizer fails its
/// exception is the outcome, otherwise the pending outcome stands.
pub proof fn lemma_finally_once(h: Heap, t: TryStatement, fuel: nat, h2: Heap, r: JSResult<Interpreted>)
    requires
        try_outcome(h, t, fuel, h2, r),
        fuel >= 3,
        t.finalizer is Some,
    ensures
        exists|hb: Heap, rb: JSResult<Interpreted>, hp: Heap, pend: JSResult<Interpreted>, rf: JSResult<Interpreted>|
            #[trigger] stage((hb, rb), (hp, (pend, rf))) && block_outcome(h, t.block, (fuel - 1) as nat, hb, rb)
                && pending_outcome(hb, rb, t.handler, (fuel - 1) as nat, hp, pend)
                && block_outcome(hp, t.finalizer->Some_0, (fuel - 3) as nat, h2, rf) && match rf {
                Err(x) => r == Err::<Interpreted, Exception>(x),
                Ok(_) => r == pend,
            },
{
    let f = (fuel - 1) as nat;
    let (hb, rb, hp, pend) = choose|hb: Heap, rb: JSResult<Interpreted>, hp: Heap, pend: JSResult<Interpreted>|
        #[trigger] stage((hb, rb), (hp, pend)) && block_outcome(h, t.block, f, hb, rb)
            && pending_outcome(hb, rb, t.handler, f, hp, pend) && finish_outcome(hp, t.finalizer, pend, f, h2, r);
    let b = t.finalizer->Some_0;
    let (hf, rf) = choose|hf: Heap, rf: JSResult<Interpreted>|
        #[trigger] stage(hf, rf) && block_outcome(hp, b, (f - 2) as nat, hf, rf) && h2 == hf && match rf {
            Err(x) => r == Err::<Interpreted, Exception>(x),
            Ok(_) => r == pend,
        };
    assert(stage((hb, rb), (hp, (pend, rf))));
}

/// A block: a fresh child scope is entered, the block's names are declared
/// in it, its statements run in order, and the scope is left again; the
/// value is the last statement's, or undefined for an empty block.
pub open spec fn block_outcome(h: Heap, b: BlockStatement, fuel: nat, h2: Heap, r: JSResult<Interpreted>) -> bool
    decreases fuel, 0nat,
{
    if fuel == 0 {
        h2 == h && r matches Err(Exception::RangeError(_))
    } else if !(h.objects@.len() + 8 < usize::MAX) {
        h2 == h && r matches Err(Exception::RangeError(_))
    } else {
        exists|hs: Heap, h3: Heap, r3: JSResult<Interpreted>|
            #[trigger] stage(hs, (h3, r3)) && entered(h, hs) && body_outcome(hs, b, (fuel - 1) as nat, h3, r3)
                && h2 == (Heap { scope: h.scope, ..h3 }) && r == r3
    }
}

/// The inside of a block: its names are declared, then its statements run.
pub open spec fn body_outcome(h: Heap, b: BlockStatement, fuel: nat, h2: Heap, r: JSResult<Interpreted>) -> bool
    decreases fuel, 0nat,
{
    if fuel == 0 {
        h2 == h && r matches Err(Exception::RangeError(_))
    } else {
        exists|h1: Heap, ru: JSResult<()>|
            #[trigger] stage(h1, ru) && declare_outcome(h, b.bindings@, Seq::empty(), h1, ru) && match ru {
                Err(x) => h2 == h1 && r == Err::<Interpreted, Exception>(x),
                Ok(_) => stmts_outcome(h1, b.body@, (fuel - 1) as nat, Interpreted::Value(JSValue::Undefined), h2, r),
            }
    }
}

/// Statements run one after the other until one fails; `last` is the value
/// of the one run before them.
pub open spec fn stmts_outcome(h: Heap, stmts: Seq<Statement>, f: nat, last: Interpreted, h2: Heap, r: JSResult<Interpreted>) -> bool
    decreases f, stmts.len() + 1,
{
    if stmts.len() == 0 {
        h2 == h && r == Ok::<Interpreted, Exception>(last)
    } else {
        exists|h1: Heap, r1: JSResult<Interpreted>|
            #[trigger] stage(h1, r1) && stmt_outcome(h, stmts[0], f, h1, r1) && match r1 {
                Err(x) => h2 == h1 && r == Err::<Interpreted, Exception>(x),
                Ok(v) => stmts_outcome(h1, stmts.drop_first(), f, v, h2, r),
            }
    }
}

/// `++`/`--`: the place, its old number, the new number written back; the
/// value is the new number if prefix, else the old one.
pub open spec fn update_outcome(h: Heap, u: UpdateExpression, fuel: nat, h2: Heap, r: JSResult<Interpreted>) -> bool
    decreases fuel, 0nat,
{
    if fuel == 0 {
        h2 == h && r matches Err(Exception::RangeError(_))
    } else {
        exists|h1: Heap, p1: JSResult<Interpreted>, ro: JSResult<JSValue>, ru: JSResult<()>|
            #[trigger] stage((h1, p1), (ro, ru)) && expr_outcome(h, u.2, (fuel - 1) as nat, h1, p1) && match p1 {
                Err(x) => h2 == h1 && r == Err::<Interpreted, Exception>(x),
                Ok(place) => read_outcome(h1, place, ro) && match ro {
                    Err(x) => h2 == h1 && r == Err::<Interpreted, Exception>(x),
                    Ok(ov) => {
                        let on = primitive_num(ov);
                        let nn = match u.0 {
                            UpdOp::Increment => add_spec(on, Num::Int(1)),
                            UpdOp::Decrement => crate::number::sub_spec(on, Num::Int(1)),
                        };
                        crate::heap::put_outcome(h1, place, JSValue::Number(nn), h2, ru) && match ru {
                            Err(x) => r == Err::<Interpreted, Exception>(x),
                            Ok(_) => r == Ok::<Interpreted, Exception>(Interpreted::Value(JSValue::Number(if u.1 { nn } else { on }))),
                        }
                    },
                },
            }
    }
}

/// Expressions evaluated to values left to right until one fails; `acc`
/// holds the values of those before them.
pub open spec fn list_outcome(h: Heap, es: Seq<Expression>, f: nat, acc: Seq<JSValue>, h2: Heap, r: Result<Seq<JSValue>, Exception>) -> bool
    decreases f, es.len() + 1,
{
    if es.len() == 0 {
        h2 == h && r == Ok::<Seq<JSValue>, Exception>(acc)
    } else {
        exists|h1: Heap, r1: JSResult<JSValue>|
            #[trigger] stage(h1, r1) && value_outcome(h, es[0], f, h1, r1) && match r1 {
                Err(x) => h2 == h1 && r == Err::<Seq<JSValue>, Exception>(x),
                Ok(v) => list_outcome(h1, es.drop_first(), f, acc.push(v), h2, r),
            }
    }
}

/// `a, b, c`: the value of the last, or undefined if there is none.
pub open spec fn sequence_outcome(h: Heap, s: SequenceExpression, fuel: nat, h2: Heap, r: JSResult<Interpreted>) -> bool
    decreases fuel, 0nat,
{
    if fuel == 0 {
        h2 == h && r matches Err(Exception::RangeError(_))
    } else {
        exists|h1: Heap, rv: Result<Seq<JSValue>, Exception>|
            #[trigger] stage(h1, rv) && list_outcome(h, s.0@, (fuel - 1) as nat, Seq::empty(), h1, rv) && h2 == h1 && match rv {
                Err(x) => r == Err::<Interpreted, Exception>(x),
                Ok(vs) => r == Ok::<Interpreted, Exception>(Interpreted::Value(
                    if vs.len() == 0 { JSValue::Undefined } else { vs.last() },
                )),
            }
    }
}

/// `[a, b, c]`: a fresh array of the elements' values, in source order.
pub open spec fn array_outcome(h: Heap, a: ArrayExpression, fuel: nat, h2: Heap, r: JSResult<Interpreted>) -> bool
    decreases fuel, 0nat,
{
    if fuel == 0 {
        h2 == h && r matches Err(Exception::RangeError(_))
    } else {
        exists|h1: Heap, rv: Result<Seq<JSValue>, Exception>|
            #[trigger] stage(h1, rv) && list_outcome(h, a.0@, (fuel - 1) as nat, Seq::empty(), h1, rv) && match rv {
                Err(x) => h2 == h1 && r == Err::<Interpreted, Exception>(x),
                Ok(vs) => if !(h1.objects@.len() + 8 < usize::MAX) {
                    h2 == h1 && r matches Err(Exception::RangeError(_))
                } else {
                    let id = h1.objects@.len();
                    &&& r == Ok::<Interpreted, Exception>(Interpreted::Value(JSValue::Ref(id as usize)))
                    &&& h2.objects@ == h1.objects@.push(h2.objects@[id as int])
                    &&& h2.scope == h1.scope
                    &&& h2.loc == h1.loc
                    &&& h2.objects@[id as int].payload matches Payload::Array(items) && items@ == vs
                    &&& h2.objects@[id as int].proto == crate::heap::ARRAY_PROTO
                    &&& h2.objects@[id as int].properties@.len() == 0
                },
            }
    }
}

/// The message `Error(args)` gives: the text of its first argument, or
/// nothing when there is none or it is undefined.
pub open spec fn error_message_text(objs: Seq<JSObject>, args: Seq<JSValue>) -> Seq<char> {
    if args.len() > 0 && !(args[0] is Undefined) {
        value_text(objs, args[0])
    } else {
        Seq::empty()
    }
}

/// What a host function does (see `Heap::call_host`).
pub open spec fn host_post(h: Heap, host: HostFn, args: Seq<JSValue>, this_ref: JSValue, h2: Heap, r: JSResult<JSValue>) -> bool {
    &&& (!(r matches Err(Exception::Jump(_))))
    &&& (value_step(h, h2, r))
    &&& (host == HostFn::ArrayPush ==> match this_ref {
        JSValue::Ref(id) => match h.objects@[id as int].payload {
            Payload::Array(items) => h2.objects@[id as int].payload matches Payload::Array(after)
                && after@ == items@ + args
                && r == Ok::<JSValue, Exception>(JSValue::Number(crate::number::num_of(after@.len() as int))),
            _ => r matches Err(Exception::TypeError(_)),
        },
        _ => r matches Err(Exception::TypeError(_)),
    })
    &&& (host == HostFn::ErrorConstructor && r is Ok ==> (r->Ok_0 matches JSValue::Ref(id)
        && h.len() <= id && h2.objects@[id as int].payload is Error))
    &&& (host == HostFn::ErrorConstructor ==> (h.len() + 8 < usize::MAX ==> r is Ok))
    &&& (host == HostFn::ErrorConstructor && r is Ok ==> (r->Ok_0 matches JSValue::Ref(id)
                && (prop_value(h2.objects@[id as int].properties@, seq!['m', 'e', 's', 's', 'a', 'g', 'e']) matches Some(JSValue::String(m))
                    && m@ == error_message_text(h.objects@, args))
                && (prop_value(h2.objects@[id as int].properties@, seq!['n', 'a', 'm', 'e']) matches Some(JSValue::String(k))
                    && k@ == seq!['E', 'r', 'r', 'o', 'r'])))
}

/// What a call gives for the outcome of the function's body (see
/// `function_completion`).
pub open spec fn completion_post(result: JSResult<Interpreted>, r: JSResult<JSValue>) -> bool {
    match result {
        Ok(_) => r == Ok::<JSValue, Exception>(JSValue::Undefined),
        Err(Exception::Jump(Jump::Return(v))) => r == Ok::<JSValue, Exception>(v),
        Err(Exception::Jump(_)) => r matches Err(Exception::SyntaxTreeError(_)),
        Err(e) => r == Err::<JSValue, Exception>(e),
    }
}

/// Heap `hs` is heap `h` with a fresh activation scope entered: its parent
/// is `parent`, its receiver `this_ref`, and it records the call site.
pub open spec fn called(h: Heap, parent: ObjectId, this_ref: JSValue, hs: Heap) -> bool {
    let n = h.objects@.len();
    &&& hs.objects@.len() == n + 1
    &&& forall|i: int| 0 <= i < n ==> hs.objects@[i] == h.objects@[i]
    &&& hs.scope == n
    &&& hs.loc == h.loc
    &&& hs.objects@[n as int].payload matches Payload::Scope(f) && f.saved_scope == parent && f.this_ref == this_ref
        && f.caller == h.loc
    &&& hs.objects@[n as int].properties@.len() == 0
}

/// The parameters from `i` on bound in scope `scope`, each to its argument,
/// or to undefined where the arguments run out.
pub open spec fn params_outcome(h: Heap, scope: int, params: Seq<Identifier>, args: Seq<JSValue>, i: nat, h2: Heap) -> bool
    decreases params.len() - i,
{
    if i >= params.len() {
        h2 == h
    } else {
        exists|hd: Heap|
            #[trigger] stage(hd, i) && crate::heap::defined(
                h,
                scope,
                params[i as int].0@,
                if i < args.len() { args[i as int] } else { JSValue::Undefined },
                Access { write: true, enumerable: true, configurable: false },
                hd,
            ) && params_outcome(hd, scope, params, args, i + 1, h2)
    }
}

/// The body of a closure run in its activation scope: the parameters are
/// bound, the function's names declared, its body run, and the outcome
/// turned into the call's value.
pub open spec fn callbody_outcome(h: Heap, fun: Function, args: Seq<JSValue>, fuel: nat, h2: Heap, r: JSResult<JSValue>) -> bool
    decreases fuel, 0nat,
{
    if fuel == 0 {
        h2 == h && r matches Err(Exception::RangeError(_))
    } else {
        exists|hp: Heap, hd: Heap, rd: JSResult<()>, rb: JSResult<Interpreted>|
            #[trigger] stage((hp, hd), (rd, rb)) && params_outcome(h, h.scope as int, fun.params@, args, 0, hp)
                && declare_outcome(hp, fun.variables@, fun.functions@, hd, rd) && match rd {
                Err(x) => h2 == hd && r == Err::<JSValue, Exception>(x),
                Ok(_) => block_outcome(hd, fun.body, (fuel - 1) as nat, h2, rb) && completion_post(rb, r),
            }
    }
}

/// Calling object `f`: a closure runs in a fresh activation scope whose
/// parent is the scope it captured, which is left again afterwards; a host
/// function does its work; anything else is not callable.
pub open spec fn execute_outcome(h: Heap, f: ObjectId, args: Seq<JSValue>, this_ref: JSValue, fuel: nat, h2: Heap, r: JSResult<JSValue>) -> bool
    decreases fuel, 0nat,
{
    if fuel == 0 {
        h2 == h && r matches Err(Exception::RangeError(_))
    } else {
        match h.objects@[f as int].payload {
            Payload::Closure(c) => if !(h.objects@.len() + 8 < usize::MAX) {
                h2 == h && r matches Err(Exception::RangeError(_))
            } else {
                exists|hs: Heap, h3: Heap, r3: JSResult<JSValue>|
                    #[trigger] stage(hs, (h3, r3)) && called(h, c.captured_scope, this_ref, hs)
                        && callbody_outcome(hs, *c.function, args, (fuel - 1) as nat, h3, r3)
                        && h2 == (Heap { scope: h.scope, ..h3 }) && r == r3
            },
            Payload::Host(hf) => host_post(h, hf, args, this_ref, h2, r),
            _ => h2 == h && r matches Err(Exception::TypeError(_)),
        }
    }
}

/// The receiver of a call: the object of a member callee, unless that is
/// a scope (a plain call); undefined otherwise.
pub open spec fn receiver(h: Heap, callee: Interpreted) -> JSValue {
    match callee {
        Interpreted::Member { of, name } => if of == GLOBAL || h.objects@[of as int].payload is Scope {
            JSValue::Undefined
        } else {
            JSValue::Ref(of)
        },
        Interpreted::Value(_) => JSValue::Undefined,
    }
}

/// `f(args)`: the arguments left to right, then the callee, then the call
/// with the receiver `receiver` gives.
pub open spec fn call_outcome(h: Heap, c: CallExpression, fuel: nat, h2: Heap, r: JSResult<Interpreted>) -> bool
    decreases fuel, 0nat,
{
    if fuel <= 1 {
        h2 == h && r matches Err(Exception::RangeError(_))
    } else {
        let f = (fuel - 1) as nat;
        exists|h1: Heap, ra: Result<Seq<JSValue>, Exception>, h3: Heap, p3: JSResult<Interpreted>|
            #[trigger] stage((h1, ra), (h3, p3)) && list_outcome(h, c.1@, (f - 1) as nat, Seq::empty(), h1, ra) && match ra {
                Err(x) => h2 == h1 && r == Err::<Interpreted, Exception>(x),
                Ok(args) => expr_outcome(h1, c.0, f, h3, p3) && match p3 {
                    Err(x) => h2 == h3 && r == Err::<Interpreted, Exception>(x),
                    Ok(callee) => exists|rf: JSResult<JSValue>, h4: Heap, re: JSResult<JSValue>|
                        #[trigger] stage(rf, (h4, re)) && read_outcome(h3, callee, rf) && match rf {
                            Err(x) => h2 == h3 && r == Err::<Interpreted, Exception>(x),
                            Ok(JSValue::Ref(id)) => execute_outcome(h3, id, args, receiver(h3, callee), f, h4, re)
                                && h2 == h4 && match re {
                                Ok(v) => r == Ok::<Interpreted, Exception>(Interpreted::Value(v)),
                                Err(x) => r == Err::<Interpreted, Exception>(x),
                            },
                            Ok(_) => h2 == h3 && r matches Err(Exception::TypeError(_)),
                        },
                },
            }
    }
}

/// A function expression: a function object closing over the current scope.
pub open spec fn function_outcome(h: Heap, fe: FunctionExpression, h2: Heap, r: JSResult<Interpreted>) -> bool {
    if !(h.objects@.len() + 8 < usize::MAX) {
        h2 == h && r matches Err(Exception::RangeError(_))
    } else {
        r == Ok::<Interpreted, Exception>(Interpreted::Value(JSValue::Ref(h.objects@.len() as usize)))
            && crate::heap::function_made(h, fe.func, h2)
    }
}

/// `new f(args)`: the arguments, then the callee, which must be an object
/// with an object `prototype`; a fresh object with that prototype is made
/// and the callee runs with it as `this`; the value is `construct_result`.
pub open spec fn new_outcome(h: Heap, n: NewExpression, fuel: nat, h2: Heap, r: JSResult<Interpreted>) -> bool
    decreases fuel, 0nat,
{
    if fuel <= 1 {
        h2 == h && r matches Err(Exception::RangeError(_))
    } else {
        let f = (fuel - 1) as nat;
        exists|h1: Heap, ra: Result<Seq<JSValue>, Exception>, h3: Heap, r3: JSResult<JSValue>|
            #[trigger] stage((h1, ra), (h3, r3)) && list_outcome(h, n.1@, (f - 1) as nat, Seq::empty(), h1, ra) && match ra {
                Err(x) => h2 == h1 && r == Err::<Interpreted, Exception>(x),
                Ok(args) => value_outcome(h1, n.0, f, h3, r3) && match r3 {
                    Err(x) => h2 == h3 && r == Err::<Interpreted, Exception>(x),
                    Ok(JSValue::Ref(fid)) => match own_value(h3.objects@[fid as int], seq!['p', 'r', 'o', 't', 'o', 't', 'y', 'p', 'e']) {
                        Some(JSValue::Ref(p)) => if !(h3.objects@.len() + 8 < usize::MAX) {
                            h2 == h3 && r matches Err(Exception::RangeError(_))
                        } else {
                            let o = h3.objects@.len();
                            exists|h4: Heap, re: JSResult<JSValue>|
                                #[trigger] stage(h4, re) && h4.objects@ == h3.objects@.push(h4.objects@[o as int])
                                    && h4.scope == h3.scope && h4.loc == h3.loc
                                    && h4.objects@[o as int].proto == p && h4.objects@[o as int].payload is Plain
                                    && h4.objects@[o as int].properties@.len() == 0
                                    && execute_outcome(h4, fid, args, JSValue::Ref(o as usize), f, h2, re) && match re {
                                    Ok(v) => r == Ok::<Interpreted, Exception>(Interpreted::Value(match v {
                                        JSValue::Ref(q) => JSValue::Ref(q),
                                        _ => JSValue::Ref(o as usize),
                                    })),
                                    Err(x) => r == Err::<Interpreted, Exception>(x),
                                }
                        },
                        _ => h2 == h3 && r matches Err(Exception::TypeError(_)),
                    },
                    Ok(_) => h2 == h3 && r matches Err(Exception::TypeError(_)),
                },
            }
    }
}

/// The name an object-literal key gives: an identifier's own text, or the
/// text of a computed key's value.
pub open spec fn key_outcome(h: Heap, key: ObjectKey, f: nat, hk: Heap, rk: Result<Seq<char>, Exception>) -> bool
    decreases f, 1nat,
{
    match key {
        ObjectKey::Identifier(n) => hk == h && rk == Ok::<Seq<char>, Exception>(n@),
        ObjectKey::Computed(e) => exists|h1: Heap, r1: JSResult<JSValue>|
            #[trigger] stage(h1, r1) && value_outcome(h, e, f, h1, r1) && hk == h1 && match r1 {
                Err(x) => rk == Err::<Seq<char>, Exception>(x),
                Ok(v) => rk == Ok::<Seq<char>, Exception>(crate::heap::value_text(h1.objects@, v)),
            },
    }
}

/// The entries of an object literal, in order: the key, then the value,
/// then the assignment of the value to that name on object `id`.
pub open spec fn entries_outcome(h: Heap, id: int, es: Seq<(ObjectKey, Expression)>, f: nat, h2: Heap, r: JSResult<Interpreted>) -> bool
    decreases f, es.len() + 1,
{
    if es.len() == 0 {
        h2 == h && r == Ok::<Interpreted, Exception>(Interpreted::Value(JSValue::Ref(id as usize)))
    } else {
        exists|hk: Heap, rk: Result<Seq<char>, Exception>, hv: Heap, rv: JSResult<JSValue>, hw: Heap, nm: String|
            #[trigger] stage((hk, rk), (hv, (rv, (hw, nm)))) && key_outcome(h, es[0].0, f, hk, rk) && match rk {
                Err(x) => h2 == hk && r == Err::<Interpreted, Exception>(x),
                Ok(kt) => value_outcome(hk, es[0].1, f, hv, rv) && match rv {
                    Err(x) => h2 == hv && r == Err::<Interpreted, Exception>(x),
                    Ok(v) => nm@ == kt && crate::heap::only_changed(hv, id, hw)
                        && crate::heap::assigned(hv.objects@[id], nm, v, hw.objects@[id])
                        && entries_outcome(hw, id, es.drop_first(), f, h2, r),
                },
            }
    }
}

/// `{k: v, ...}`: a fresh plain object whose prototype is `Object.prototype`,
/// given each entry in order.
pub open spec fn object_outcome(h: Heap, o: ObjectExpression, fuel: nat, h2: Heap, r: JSResult<Interpreted>) -> bool
    decreases fuel, 0nat,
{
    if fuel == 0 {
        h2 == h && r matches Err(Exception::RangeError(_))
    } else if !(h.objects@.len() + 8 < usize::MAX) {
        h2 == h && r matches Err(Exception::RangeError(_))
    } else {
        let id = h.objects@.len();
        exists|h1: Heap|
            #[trigger] stage(h1, id) && h1.objects@ == h.objects@.push(h1.objects@[id as int]) && h1.scope == h.scope
                && h1.loc == h.loc && h1.objects@[id as int].proto == OBJECT_PROTO && h1.objects@[id as int].payload is Plain
                && h1.objects@[id as int].properties@.len() == 0
                && entries_outcome(h1, id as int, o.0@, (fuel - 1) as nat, h2, r)
    }
}

/// `l op r`: the left side, then the right, then the operator.
pub open spec fn binary_outcome(h: Heap, b: BinaryExpression, fuel: nat, h2: Heap, r: JSResult<Interpreted>) -> bool
    decreases fuel, 0nat,
{
    if fuel == 0 {
        h2 == h && r matches Err(Exception::RangeError(_))
    } else {
        let f = (fuel - 1) as nat;
        exists|h1: Heap, r1: JSResult<JSValue>|
            #[trigger] stage(h1, r1) && value_outcome(h, b.0, f, h1, r1) && match r1 {
                Err(x) => h2 == h1 && r == Err::<Interpreted, Exception>(x),
                Ok(v1) => exists|h3: Heap, r3: JSResult<JSValue>|
                    #[trigger] stage(h3, r3) && value_outcome(h1, b.2, f, h3, r3) && h2 == h3 && match r3 {
                        Err(x) => r == Err::<Interpreted, Exception>(x),
                        Ok(v2) => match r {
                            Ok(Interpreted::Value(v)) => compute_post(b.1, v1, v2, h3, Ok::<JSValue, Exception>(v)),
                            Ok(_) => false,
                            Err(x) => compute_post(b.1, v1, v2, h3, Err::<JSValue, Exception>(x)),
                        },
                    },
            }
    }
}

impl Expression {
    /// Evaluates to a value or a place.
    pub fn interpret_in(&self, heap: &mut Heap, fuel: u64) -> (r: JSResult<Interpreted>)
        requires
            old(heap).wf(),
        ensures
            !(r matches Err(Exception::Jump(_))),
            expr_outcome(*old(heap), *self, fuel as nat, *final(heap), r),
            step(*old(heap), *final(heap), r),
        decreases fuel,
    {
        if fuel == 0 {
            return Err(out_of_fuel());
        }
        heap.loc = match &self.loc {
            Some(l) => Some(**l),
            None => None,
        };
        proof {
            assert(*heap == at_loc(*old(heap), self.loc));
        }
        let f = fuel - 1;
        match &self.expr {
            Expr::Literal(expr) => Ok(Interpreted::Value(expr.0.to_value())),
            Expr::Identifier(expr) => Ok(identifier_place(heap, expr)),
            Expr::BinaryOp(expr) => expr.interpret_in(heap, f),
            Expr::LogicalOp(expr) => expr.interpret_in(heap, f),
            Expr::Call(expr) => expr.interpret_in(heap, f),
            Expr::Array(expr) => expr.interpret_in(heap, f),
            Expr::Member(expr) => expr.interpret_in(heap, f),
            Expr::Object(expr) => expr.interpret_in(heap, f),
            Expr::Assign(expr) => expr.interpret_in(heap, f),
            Expr::Conditional(expr) => expr.interpret_in(heap, f),
            Expr::Unary(expr) => expr.interpret_in(heap, f),
            Expr::Update(expr) => expr.interpret_in(heap, f),
            Expr::Sequence(expr) => expr.interpret_in(heap, f),
            Expr::Function(expr) => expr.interpret_in(heap, f),
            Expr::New(expr) => expr.interpret_in(heap, f),
            Expr::This => Ok(Interpreted::Value(heap.interpret_this())),
        }
    }

    /// Evaluates to a value, reading through a place.
    pub fn evaluate_in(&self, heap: &mut Heap, fuel: u64) -> (r: JSResult<JSValue>)
        requires
            old(heap).wf(),
        ensures
            !(r matches Err(Exception::Jump(_))),
            value_outcome(*old(heap), *self, fuel as nat, *final(heap), r),
            value_step(*old(heap), *final(heap), r),
        decreases fuel,
    {
        if fuel == 0 {
            return Err(out_of_fuel());
        }
        let ghost h0 = *heap;
        let p = self.interpret_in(heap, fuel - 1);
        let ghost gp = p;
        let ghost h1 = *heap;
        let place = match p {
            Ok(place) => place,
            Err(x) => {
                proof {
                    assert(stage(h1, gp));
                }
                return Err(x);
            },
        };
        let r = heap.to_value(&place);
        proof {
            assert(stage(h1, gp));
        }
        r
    }
}

impl ConditionalExpression {
    pub fn interpret_in(&self, heap: &mut Heap, fuel: u64) -> (r: JSResult<Interpreted>)
        requires
            old(heap).wf(),
        ensures
            !(r matches Err(Exception::Jump(_))),
            conditional_outcome(*old(heap), *self, fuel as nat, *final(heap), r),
            step(*old(heap), *final(heap), r),
        decreases fuel,
    {
        if fuel == 0 {
            return Err(out_of_fuel());
        }
        let r1 = self.condexpr.evaluate_in(heap, fuel - 1);
        let ghost g1 = r1;
        let ghost h1 = *heap;
        proof {
            assert(stage(h1, g1));
        }
        let cond = match r1 {
            Ok(v) => v,
            Err(x) => {
                return Err(x);
            },
        };
        if cond.boolify() {
            self.thenexpr.interpret_in(heap, fuel - 1)
        } else {
            self.elseexpr.interpret_in(heap, fuel - 1)
        }
    }
}

impl LogicalExpression {
    /// Short-circuits; the value is the last operand evaluated.
    pub fn interpret_in(&self, heap: &mut Heap, fuel: u64) -> (r: JSResult<Interpreted>)
        requires
            old(heap).wf(),
        ensures
            !(r matches Err(Exception::Jump(_))),
            logical_outcome(*old(heap), *self, fuel as nat, *final(heap), r),
            step(*old(heap), *final(heap), r),
            r matches Ok(i) ==> i is Value,
        decreases fuel,
    {
        if fuel == 0 {
            return Err(out_of_fuel());
        }
        let LogicalExpression(lexpr, op, rexpr) = self;
        let r1 = lexpr.evaluate_in(heap, fuel - 1);
        let ghost g1 = r1;
        let ghost h1 = *heap;
        proof {
            assert(stage(h1, g1));
        }
        let lval = match r1 {
            Ok(v) => v,
            Err(x) => {
                return Err(x);
            },
        };
        let truth = lval.boolify();
        let go_on = match op {
            BoolOp::And => truth,
            BoolOp::Or => !truth,
        };
        if !go_on {
            return Ok(Interpreted::Value(lval));
        }
        let r3 = rexpr.evaluate_in(heap, fuel - 1);
        let ghost g3 = r3;
        let ghost h3 = *heap;
        proof {
            assert(stage(h3, g3));
        }
        match r3 {
            Ok(v) => Ok(Interpreted::Value(v)),
            Err(x) => Err(x),
        }
    }
}

impl BinaryExpression {
    /// Evaluates the left side, then the right, then applies the operator.
    pub fn interpret_in(&self, heap: &mut Heap, fuel: u64) -> (r: JSResult<Interpreted>)
        requires
            old(heap).wf(),
        ensures
            !(r matches Err(Exception::Jump(_))),
            binary_outcome(*old(heap), *self, fuel as nat, *final(heap), r),
            step(*old(heap), *final(heap), r),
            r matches Ok(i) ==> (i is Value && !(i->Value_0 is Ref)),
        decreases fuel,
    {
        if fuel == 0 {
            return Err(out_of_fuel());
        }
        let BinaryExpression(lexpr, op, rexpr) = self;
        let ghost h0 = *heap;
        let r1 = lexpr.evaluate_in(heap, fuel - 1);
        let ghost g1 = r1;
        let ghost h1 = *heap;
        let lval = match r1 {
            Ok(v) => v,
            Err(x) => {
                proof {
                    assert(stage(h1, g1));
                }
                return Err(x);
            },
        };
        let r3 = rexpr.evaluate_in(heap, fuel - 1);
        let ghost g3 = r3;
        let ghost h3 = *heap;
        let rval = match r3 {
            Ok(v) => v,
            Err(x) => {
                proof {
                    assert(stage(h1, g1));
                    assert(stage(h3, g3));
                }
                return Err(x);
            },
        };
        let result = op.compute(&lval, &rval, heap);
        proof {
            assert(stage(h1, g1));
            assert(stage(h3, g3));
        }
        match result {
            Ok(v) => Ok(Interpreted::Value(v)),
            Err(x) => Err(x),
        }
    }
}

/// `-n`
pub open spec fn neg_spec(n: Num) -> Num {
    match n {
        Num::Int(i) => crate::number::num_of(-i),
        Num::NaN => Num::NaN,
    }
}

/// A unary operator applied to a value (`typeof` and `delete` act on the
/// place, not the value, and give `undefined` here).
pub open spec fn unary_spec(op: UnOp, v: JSValue) -> JSValue {
    match op {
        UnOp::Exclamation => JSValue::Bool(!crate::value::truthy(v)),
        UnOp::Minus => JSValue::Number(neg_spec(primitive_num(v))),
        UnOp::Plus => JSValue::Number(primitive_num(v)),
        UnOp::Tilde => JSValue::Number(Num::Int((-(crate::number::spec_to_i32(primitive_num(v)) as int) - 1) as i64)),
        _ => JSValue::Undefined,
    }
}

impl UnOp {
    /// Applies the operator to a value.
    pub fn apply(&self, v: &JSValue, heap: &Heap) -> (r: JSValue)
        ensures
            r == unary_spec(*self, *v),
    {
        match self {
            UnOp::Exclamation => JSValue::Bool(!v.boolify()),
            UnOp::Minus => JSValue::Number(heap.numberify(v).neg()),
            UnOp::Plus => JSValue::Number(heap.numberify(v)),
            UnOp::Tilde => {
                let n = heap.numberify(v).to_i32();
                JSValue::Number(Num::Int(-(n as i64) - 1))
            },
            _ => JSValue::Undefined,
        }
    }
}

impl UnaryExpression {
    pub fn interpret_in(&self, heap: &mut Heap, fuel: u64) -> (r: JSResult<Interpreted>)
        requires
            old(heap).wf(),
        ensures
            !(r matches Err(Exception::Jump(_))),
            unary_outcome(*old(heap), *self, fuel as nat, *final(heap), r),
            step(*old(heap), *final(heap), r),
            r matches Ok(i) ==> i is Value,
            r matches Ok(Interpreted::Value(v)) ==> match self.0 {
                UnOp::Void => v is Undefined,
                UnOp::Exclamation | UnOp::Delete => v is Bool,
                UnOp::Typeof => v is String,
                _ => v is Number,
            },
        decreases fuel,
    {
        if fuel == 0 {
            return Err(out_of_fuel());
        }
        let UnaryExpression(op, argexpr) = self;
        let p1 = argexpr.interpret_in(heap, fuel - 1);
        let ghost g1 = p1;
        let ghost h1 = *heap;
        proof {
            assert(stage(h1, g1));
        }
        let arg = match p1 {
            Ok(a) => a,
            Err(x) => {
                return Err(x);
            },
        };
        let value = match op {
            UnOp::Void => JSValue::Undefined,
            UnOp::Typeof => {
                let rv = heap.to_value(&arg);
                proof {
                    reveal_strlit("undefined");
                    assert("undefined"@ =~= seq!['u', 'n', 'd', 'e', 'f', 'i', 'n', 'e', 'd']);
                    assert(stage(h1, rv));
                }
                match rv {
                    Ok(v) => JSValue::String(heap.type_of(&v)),
                    Err(_) => JSValue::from_str("undefined"),
                }
            },
            UnOp::Delete => {
                let b = heap.delete_place(&arg);
                proof {
                    assert(stage(*heap, b));
                }
                JSValue::Bool(b)
            },
            _ => {
                let rv = heap.to_value(&arg);
                proof {
                    assert(stage(h1, rv));
                }
                match rv {
                    Ok(v) => op.apply(&v, heap),
                    Err(x) => {
                        return Err(x);
                    },
                }
            },
        };
        Ok(Interpreted::Value(value))
    }
}

impl UpdOp {
    /// The number after `++` or `--`.
    pub fn apply(&self, n: &Num) -> (r: Num)
        ensures
            r == match *self {
                UpdOp::Increment => crate::number::add_spec(*n, Num::Int(1)),
                UpdOp::Decrement => crate::number::sub_spec(*n, Num::Int(1)),
            },
    {
        match self {
            UpdOp::Increment => n.add(&Num::Int(1)),
            UpdOp::Decrement => n.sub(&Num::Int(1)),
        }
    }
}

impl UpdateExpression {
    /// `++` / `--`: reads the place, writes back the new number, and gives
    /// the new number if prefix, else the old one.
    pub fn interpret_in(&self, heap: &mut Heap, fuel: u64) -> (r: JSResult<Interpreted>)
        requires
            old(heap).wf(),
        ensures
            update_outcome(*old(heap), *self, fuel as nat, *final(heap), r),
            !(r matches Err(Exception::Jump(_))),
            step(*old(heap), *final(heap), r),
            r matches Ok(i) ==> (i is Value && i->Value_0 is Number),
        decreases fuel,
    {
        if fuel == 0 {
            return Err(out_of_fuel());
        }
        let UpdateExpression(op, prefix, argexpr) = self;
        let p1 = argexpr.interpret_in(heap, fuel - 1);
        let ghost g1 = p1;
        let ghost h1 = *heap;
        let assignee = match p1 {
            Ok(a) => a,
            Err(x) => {
                proof {
                    assert(stage((h1, g1), (Err::<JSValue, Exception>(x), Ok::<(), Exception>(()))));
                }
                return Err(x);
            },
        };
        let ro = heap.to_value(&assignee);
        let ghost go = ro;
        let oldvalue = match ro {
            Ok(v) => v,
            Err(x) => {
                proof {
                    assert(stage((h1, g1), (go, Ok::<(), Exception>(()))));
                }
                return Err(x);
            },
        };
        let oldnum = heap.numberify(&oldvalue);
        let newnum = op.apply(&oldnum);
        let ru = heap.put_value(assignee, JSValue::Number(newnum));
        proof {
            assert(stage((h1, g1), (go, ru)));
        }
        match ru {
            Ok(()) => {},
            Err(x) => {
                return Err(x);
            },
        }
        let resnum = if *prefix { newnum } else { oldnum };
        Ok(Interpreted::Value(JSValue::Number(resnum)))
    }
}

impl SequenceExpression {
    pub fn interpret_in(&self, heap: &mut Heap, fuel: u64) -> (r: JSResult<Interpreted>)
        requires
            old(heap).wf(),
        ensures
            sequence_outcome(*old(heap), *self, fuel as nat, *final(heap), r),
            !(r matches Err(Exception::Jump(_))),
            step(*old(heap), *final(heap), r),
            r matches Ok(i) ==> i is Value,
            fuel > 0 && self.0@.len() == 0 ==> r == Ok::<Interpreted, Exception>(Interpreted::Value(JSValue::Undefined)),
        decreases fuel,
    {
        if fuel == 0 {
            return Err(out_of_fuel());
        }
        let ghost f = (fuel - 1) as nat;
        let ghost es = self.0@;
        let ghost mut vals: Seq<JSValue> = Seq::empty();
        let mut value = JSValue::Undefined;
        let mut i: usize = 0;
        proof {
            assert(es.skip(0) =~= es);
        }
        while i < self.0.len()
            invariant
                fuel > 0,
                f == fuel - 1,
                es == self.0@,
                heap.grows_from(*old(heap)),
                valid_value(value, heap.len()),
                i == 0 ==> value == JSValue::Undefined,
                i <= self.0@.len(),
                vals.len() == i,
                i > 0 ==> value == vals.last(),
                forall|h2: Heap, r2: Result<Seq<JSValue>, Exception>|
                    #[trigger] list_outcome(*heap, es.skip(i as int), f, vals, h2, r2)
                        ==> list_outcome(*old(heap), es, f, Seq::empty(), h2, r2),
            decreases self.0@.len() - i,
        {
            let ghost hi = *heap;
            proof {
                assert(es.skip(i as int)[0] == es[i as int]);
                assert(es.skip(i as int).drop_first() =~= es.skip(i + 1));
            }
            let r1 = self.0[i].evaluate_in(heap, fuel - 1);
            let ghost g1 = r1;
            proof {
                assert(stage(*heap, g1));
            }
            match r1 {
                Ok(v) => {
                    value = v;
                },
                Err(x) => {
                    proof {
                        assert(list_outcome(hi, es.skip(i as int), f, vals, *heap, Err::<Seq<JSValue>, Exception>(x)));
                        assert(stage(*heap, Err::<Seq<JSValue>, Exception>(x)));
                    }
                    return Err(x);
                },
            }
            proof {
                let nv = vals.push(value);
                assert forall|h2: Heap, r2: Result<Seq<JSValue>, Exception>|
                    #[trigger] list_outcome(*heap, es.skip(i + 1), f, nv, h2, r2)
                        implies list_outcome(*old(heap), es, f, Seq::empty(), h2, r2) by {
                    assert(stage(*heap, g1));
                    assert(list_outcome(hi, es.skip(i as int), f, vals, h2, r2));
                }
                vals = nv;
            }
            i = i + 1;
        }
        proof {
            assert(es.skip(i as int) =~= Seq::<Expression>::empty());
            assert(list_outcome(*heap, es.skip(i as int), f, vals, *heap, Ok::<Seq<JSValue>, Exception>(vals)));
            assert(stage(*heap, Ok::<Seq<JSValue>, Exception>(vals)));
        }
        Ok(Interpreted::Value(value))
    }
}

impl MemberExpression {
    /// `a.b` or `a[e]`: a place on the object that the base converts to.
    pub fn interpret_in(&self, heap: &mut Heap, fuel: u64) -> (r: JSResult<Interpreted>)
        requires
            old(heap).wf(),
        ensures
            !(r matches Err(Exception::Jump(_))),
            member_outcome(*old(heap), *self, fuel as nat, *final(heap), r),
            step(*old(heap), *final(heap), r),
            r matches Ok(Interpreted::Value(v)) ==> (v is Null || v is Ref),
            fuel > 0 && !self.2 && !(self.1.expr is Identifier) ==> r matches Err(Exception::SyntaxTreeError(_)),
        decreases fuel,
    {
        if fuel == 0 {
            return Err(out_of_fuel());
        }
        let MemberExpression(objexpr, propexpr, computed) = self;
        let ghost h0 = *heap;
        let propname = if *computed {
            let r1 = propexpr.evaluate_in(heap, fuel - 1);
            let ghost g1 = r1;
            proof {
                assert(stage(*heap, g1));
            }
            let propval = match r1 {
                Ok(v) => v,
                Err(x) => {
                    return Err(x);
                },
            };
            heap.stringify(&propval)
        } else {
            match &propexpr.expr {
                Expr::Identifier(name) => name.0.clone(),
                _ => {
                    return Err(Exception::SyntaxTreeError(String::from_str("member property is not an identifier")));
                },
            }
        };
        let ghost h1 = *heap;
        let r3 = objexpr.evaluate_in(heap, fuel - 1);
        let ghost g3 = r3;
        proof {
            assert(stage(*heap, g3));
        }
        let base = match r3 {
            Ok(v) => v,
            Err(x) => {
                return Err(x);
            },
        };
        member_place(heap, base, propname)
    }
}

/// Heap `h2` is heap `h` with a fresh object `id` that wraps the primitive
/// `v`: a string wrapper for a string, a plain object otherwise.
pub open spec fn wrapped(h: Heap, v: JSValue, h2: Heap, id: ObjectId) -> bool {
    &&& id == h.objects@.len()
    &&& h2.objects@ == h.objects@.push(h2.objects@[id as int])
    &&& h2.scope == h.scope
    &&& h2.objects@[id as int].proto == OBJECT_PROTO
    &&& h2.objects@[id as int].properties@.len() == 0
    &&& match v {
        JSValue::String(t) => h2.objects@[id as int].payload == Payload::Str(t),
        _ => h2.objects@[id as int].payload is Plain,
    }
}

/// What the place `base[name]` is (see `member_place`).
pub open spec fn member_post(h: Heap, base: JSValue, name: Seq<char>, h2: Heap, r: JSResult<Interpreted>) -> bool {
    match base {
        JSValue::Undefined => h2 == h && r matches Err(Exception::TypeError(_)),
        JSValue::Null => h2 == h && r matches Err(Exception::TypeError(_)),
        JSValue::Ref(id) => h2 == h && if name == proto_name() {
            let proto = h.objects@[id as int].proto;
            r == Ok::<Interpreted, Exception>(Interpreted::Value(if proto == NULL { JSValue::Null } else { JSValue::Ref(proto) }))
        } else {
            r matches Ok(Interpreted::Member { of, name: n }) && of == id && n@ == name
        },
        _ => match r {
            Ok(Interpreted::Member { of, name: n }) => wrapped(h, base, h2, of) && n@ == name && name != proto_name(),
            Ok(Interpreted::Value(p)) => name == proto_name() && p == JSValue::Ref(OBJECT_PROTO)
                && exists|id: ObjectId| #[trigger] wrapped(h, base, h2, id),
            Err(e) => h2 == h && e is TypeError && !(h.objects@.len() + 8 < usize::MAX),
        },
    }
}

/// The name `__proto__`.
pub open spec fn proto_name() -> Seq<char> {
    seq!['_', '_', 'p', 'r', 'o', 't', 'o', '_', '_']
}

/// The place `base[name]`: `undefined` and `null` have no properties, a
/// primitive is first wrapped in a fresh object, and `__proto__` reads the
/// prototype itself.
pub fn member_place(heap: &mut Heap, base: JSValue, name: String) -> (r: JSResult<Interpreted>)
    requires
        old(heap).wf(),
        old(heap).valid(base),
    ensures
        step(*old(heap), *final(heap), r),
        !(r matches Err(Exception::Jump(_))),
        (base is Undefined || base is Null) ==> r matches Err(Exception::TypeError(_)),
        base matches JSValue::Ref(id) ==> *final(heap) == *old(heap) && r == if name@ == proto_name() {
            let proto = old(heap).objects@[id as int].proto;
            Ok::<Interpreted, Exception>(Interpreted::Value(if proto == NULL { JSValue::Null } else { JSValue::Ref(proto) }))
        } else {
            Ok::<Interpreted, Exception>(Interpreted::Member { of: id, name })
        },
        r matches Ok(Interpreted::Value(v)) ==> (v is Null || v is Ref),
        member_post(*old(heap), base, name@, *final(heap), r),
{
    let ghost b = base;
    let objref = match heap.objectify(base) {
        Ok(id) => id,
        Err(x) => {
            return Err(x);
        },
    };
    proof {
        if !(b is Ref) {
            assert(wrapped(*old(heap), b, *heap, objref));
        }
    }
    proof {
        reveal_strlit("__proto__");
        assert("__proto__"@ =~= proto_name());
    }
    if name == String::from_str("__proto__") {
        let proto = heap.objects[objref].proto;
        if proto == NULL {
            return Ok(Interpreted::Value(JSValue::Null));
        }
        proof {
            assert(heap.objects@[objref as int].proto < objref);
        }
        return Ok(Interpreted::Value(JSValue::Ref(proto)));
    }
    Ok(Interpreted::Member { of: objref, name })
}

impl ObjectExpression {
    /// A new object with the listed properties, evaluated in order.
    pub fn interpret_in(&self, heap: &mut Heap, fuel: u64) -> (r: JSResult<Interpreted>)
        requires
            old(heap).wf(),
        ensures
            !(r matches Err(Exception::Jump(_))),
            object_outcome(*old(heap), *self, fuel as nat, *final(heap), r),
            step(*old(heap), *final(heap), r),
            r matches Ok(i) ==> (i matches Interpreted::Value(JSValue::Ref(id)) && old(heap).len() <= id
                && final(heap).objects@[id as int].proto == OBJECT_PROTO),
        decreases fuel,
    {
        if fuel == 0 {
            return Err(out_of_fuel());
        }
        if !heap.has_room() {
            return Err(out_of_memory());
        }
        let object = heap.new_object(OBJECT_PROTO);
        let ghost h1 = *heap;
        let ghost f = (fuel - 1) as nat;
        let ghost es = self.0@;
        proof {
            assert(stage(h1, object as nat));
            assert(es.skip(0) =~= es);
        }
        let mut i: usize = 0;
        while i < self.0.len()
            invariant
                fuel > 0,
                f == fuel - 1,
                es == self.0@,
                i <= es.len(),
                heap.grows_from(*old(heap)),
                1 <= object < heap.len(),
                old(heap).len() <= object,
                object == old(heap).len(),
                heap.objects@[object as int].proto == OBJECT_PROTO,
                h1.objects@ == old(heap).objects@.push(h1.objects@[object as int]),
                h1.scope == old(heap).scope,
                h1.loc == old(heap).loc,
                h1.objects@[object as int].proto == OBJECT_PROTO,
                h1.objects@[object as int].payload is Plain,
                h1.objects@[object as int].properties@.len() == 0,
                old(heap).len() + 8 < usize::MAX,
                forall|h2: Heap, r2: JSResult<Interpreted>|
                    #[trigger] entries_outcome(*heap, object as int, es.skip(i as int), f, h2, r2)
                        ==> entries_outcome(h1, object as int, es, f, h2, r2),
            decreases self.0@.len() - i,
        {
            let ghost hi = *heap;
            proof {
                assert(es.skip(i as int)[0] == es[i as int]);
                assert(es.skip(i as int).drop_first() =~= es.skip(i + 1));
            }
            let (key, valexpr) = &self.0[i];
            let keyname = match key {
                ObjectKey::Identifier(name) => name.clone(),
                ObjectKey::Computed(expr) => {
                    let rk = expr.evaluate_in(heap, fuel - 1);
                    let ghost gk = rk;
                    proof {
                        assert(stage(*heap, gk));
                    }
                    let k = match rk {
                        Ok(v) => v,
                        Err(x) => {
                            proof {
                                let ek = Err::<Seq<char>, Exception>(x);
                                assert(key_outcome(hi, es[i as int].0, f, *heap, ek));
                                assert(stage((*heap, ek), (*heap, (Err::<JSValue, Exception>(x), (*heap, vstd::pervasive::arbitrary::<String>())))));
                                assert(entries_outcome(hi, object as int, es.skip(i as int), f, *heap, Err::<Interpreted, Exception>(x)));
                                assert(stage(h1, object as nat));
                            }
                            return Err(x);
                        },
                    };
                    heap.stringify(&k)
                },
            };
            let ghost hk = *heap;
            let ghost kt = keyname@;
            proof {
                assert(key_outcome(hi, es[i as int].0, f, hk, Ok::<Seq<char>, Exception>(kt)));
            }
            let rv = valexpr.evaluate_in(heap, fuel - 1);
            let ghost hv = *heap;
            let ghost gv = rv;
            let value = match rv {
                Ok(v) => v,
                Err(x) => {
                    proof {
                        assert(stage((hk, Ok::<Seq<char>, Exception>(kt)), (hv, (gv, (hv, keyname)))));
                        assert(entries_outcome(hi, object as int, es.skip(i as int), f, hv, Err::<Interpreted, Exception>(x)));
                        assert(stage(h1, object as nat));
                    }
                    return Err(x);
                },
            };
            let ghost nm = keyname;
            heap.set_property(object, keyname, value);
            proof {
                assert forall|h2: Heap, r2: JSResult<Interpreted>|
                    #[trigger] entries_outcome(*heap, object as int, es.skip(i + 1), f, h2, r2)
                        implies entries_outcome(h1, object as int, es, f, h2, r2) by {
                    assert(stage((hk, Ok::<Seq<char>, Exception>(kt)), (hv, (gv, (*heap, nm)))));
                    assert(entries_outcome(hi, object as int, es.skip(i as int), f, h2, r2));
                }
            }
            i = i + 1;
        }
        proof {
            assert(es.skip(i as int) =~= Seq::<(ObjectKey, Expression)>::empty());
            assert(entries_outcome(*heap, object as int, es.skip(i as int), f, *heap,
                Ok::<Interpreted, Exception>(Interpreted::Value(JSValue::Ref(object)))));
            assert(stage(h1, object as nat));
        }
        Ok(Interpreted::Value(JSValue::Ref(object)))
    }
}

impl ArrayExpression {
    /// A new array of the listed elements, evaluated in order.
    pub fn interpret_in(&self, heap: &mut Heap, fuel: u64) -> (r: JSResult<Interpreted>)
        requires
            old(heap).wf(),
        ensures
            array_outcome(*old(heap), *self, fuel as nat, *final(heap), r),
            !(r matches Err(Exception::Jump(_))),
            step(*old(heap), *final(heap), r),
            r matches Ok(i) ==> (i matches Interpreted::Value(JSValue::Ref(id)) && old(heap).len() <= id
                && (final(heap).objects@[id as int].payload matches Payload::Array(items) && items@.len() == self.0@.len())),
        decreases fuel,
    {
        if fuel == 0 {
            return Err(out_of_fuel());
        }
        let ghost f = (fuel - 1) as nat;
        let ghost es = self.0@;
        let mut items: Vec<JSValue> = Vec::new();
        let mut i: usize = 0;
        proof {
            assert(es.skip(0) =~= es);
        }
        while i < self.0.len()
            invariant
                fuel > 0,
                f == fuel - 1,
                es == self.0@,
                heap.grows_from(*old(heap)),
                values_valid(items@, heap.len()),
                items@.len() == i,
                i <= self.0@.len(),
                forall|h2: Heap, r2: Result<Seq<JSValue>, Exception>|
                    #[trigger] list_outcome(*heap, es.skip(i as int), f, items@, h2, r2)
                        ==> list_outcome(*old(heap), es, f, Seq::empty(), h2, r2),
            decreases self.0@.len() - i,
        {
            let ghost before = heap.len();
            let ghost hi = *heap;
            let ghost acc = items@;
            proof {
                assert(es.skip(i as int)[0] == es[i as int]);
                assert(es.skip(i as int).drop_first() =~= es.skip(i + 1));
            }
            let r1 = self.0[i].evaluate_in(heap, fuel - 1);
            let ghost g1 = r1;
            proof {
                assert(stage(*heap, g1));
            }
            let value = match r1 {
                Ok(v) => v,
                Err(x) => {
                    proof {
                        assert(list_outcome(hi, es.skip(i as int), f, acc, *heap, Err::<Seq<JSValue>, Exception>(x)));
                        assert(stage(*heap, Err::<Seq<JSValue>, Exception>(x)));
                    }
                    return Err(x);
                },
            };
            proof {
                lemma_values_valid_mono(items@, before, heap.len());
            }
            items.push(value);
            proof {
                assert forall|h2: Heap, r2: Result<Seq<JSValue>, Exception>|
                    #[trigger] list_outcome(*heap, es.skip(i + 1), f, items@, h2, r2)
                        implies list_outcome(*old(heap), es, f, Seq::empty(), h2, r2) by {
                    assert(stage(*heap, g1));
                    assert(list_outcome(hi, es.skip(i as int), f, acc, h2, r2));
                }
            }
            i = i + 1;
        }
        let ghost h1 = *heap;
        proof {
            assert(es.skip(i as int) =~= Seq::<Expression>::empty());
            assert(list_outcome(*heap, es.skip(i as int), f, items@, *heap, Ok::<Seq<JSValue>, Exception>(items@)));
            assert(stage(h1, Ok::<Seq<JSValue>, Exception>(items@)));
        }
        if !heap.has_room() {
            return Err(out_of_memory());
        }
        let id = heap.new_array(items);
        Ok(Interpreted::Value(JSValue::Ref(id)))
    }
}

impl AssignmentExpression {
    /// Evaluates the right side, then the target; a compound operator
    /// combines with the old value; the value written is the result.
    pub fn interpret_in(&self, heap: &mut Heap, fuel: u64) -> (r: JSResult<Interpreted>)
        requires
            old(heap).wf(),
        ensures
            !(r matches Err(Exception::Jump(_))),
            assign_outcome(*old(heap), *self, fuel as nat, *final(heap), r),
            step(*old(heap), *final(heap), r),
            r matches Ok(i) ==> i is Value,
        decreases fuel,
    {
        if fuel == 0 {
            return Err(out_of_fuel());
        }
        let AssignmentExpression(leftexpr, modop, valexpr) = self;
        let r1 = valexpr.evaluate_in(heap, fuel - 1);
        let ghost g1 = r1;
        let ghost h1 = *heap;
        proof {
            assert(stage(h1, g1));
        }
        let value = match r1 {
            Ok(v) => v,
            Err(x) => {
                return Err(x);
            },
        };
        let p3 = leftexpr.interpret_in(heap, fuel - 1);
        let ghost g3 = p3;
        let ghost h3 = *heap;
        proof {
            assert(stage(h3, g3));
        }
        let assignee = match p3 {
            Ok(a) => a,
            Err(x) => {
                return Err(x);
            },
        };
        let newvalue = match modop.0 {
            None => value,
            Some(op) => {
                let r4 = heap.to_value(&assignee);
                let ghost g4 = r4;
                let oldvalue = match r4 {
                    Ok(v) => v,
                    Err(x) => {
                        proof {
                            assert(stage(g4, g4));
                        }
                        return Err(x);
                    },
                };
                let r5 = op.compute(&oldvalue, &value, heap);
                proof {
                    assert(stage(g4, r5));
                }
                match r5 {
                    Ok(v) => v,
                    Err(x) => {
                        return Err(x);
                    },
                }
            },
        };
        let ghost place = assignee;
        let ru = heap.put_value(assignee, newvalue.dup());
        proof {
            assert(stage(*heap, ru));
        }
        match ru {
            Ok(()) => Ok(Interpreted::Value(newvalue)),
            Err(x) => Err(x),
        }
    }
}

/// Evaluates argument expressions left to right.
fn evaluate_arguments(exprs: &Vec<Expression>, heap: &mut Heap, fuel: u64) -> (r: JSResult<Vec<JSValue>>)
    requires
        old(heap).wf(),
    ensures
        fuel > 0 ==> list_outcome(*old(heap), exprs@, (fuel - 1) as nat, Seq::empty(), *final(heap), match r {
            Ok(args) => Ok::<Seq<JSValue>, Exception>(args@),
            Err(x) => Err::<Seq<JSValue>, Exception>(x),
        }),
        fuel == 0 ==> *final(heap) == *old(heap) && r matches Err(Exception::RangeError(_)),
        final(heap).grows_from(*old(heap)),
        r matches Ok(args) ==> values_valid(args@, final(heap).len()) && args@.len() == exprs@.len(),
        r matches Err(e) ==> valid_exception(e, final(heap).len()),
        !(r matches Err(Exception::Jump(_))),
    decreases fuel,
{
    if fuel == 0 {
        return Err(out_of_fuel());
    }
    let ghost f = (fuel - 1) as nat;
    let ghost es = exprs@;
    let mut args: Vec<JSValue> = Vec::new();
    let mut i: usize = 0;
    proof {
        assert(es.skip(0) =~= es);
    }
    while i < exprs.len()
        invariant
            fuel > 0,
            f == fuel - 1,
            es == exprs@,
            heap.grows_from(*old(heap)),
            values_valid(args@, heap.len()),
            args@.len() == i,
            i <= exprs@.len(),
            forall|h2: Heap, r2: Result<Seq<JSValue>, Exception>|
                #[trigger] list_outcome(*heap, es.skip(i as int), f, args@, h2, r2)
                    ==> list_outcome(*old(heap), es, f, Seq::empty(), h2, r2),
        decreases exprs@.len() - i,
    {
        let ghost before = heap.len();
        let ghost hi = *heap;
        let ghost acc = args@;
        proof {
            assert(es.skip(i as int)[0] == es[i as int]);
            assert(es.skip(i as int).drop_first() =~= es.skip(i + 1));
        }
        let r1 = exprs[i].evaluate_in(heap, fuel - 1);
        let ghost g1 = r1;
        proof {
            assert(stage(*heap, g1));
        }
        let value = match r1 {
            Ok(v) => v,
            Err(x) => {
                proof {
                    assert(list_outcome(hi, es.skip(i as int), f, acc, *heap, Err::<Seq<JSValue>, Exception>(x)));
                }
                return Err(x);
            },
        };
        proof {
            lemma_values_valid_mono(args@, before, heap.len());
        }
        args.push(value);
        proof {
            assert forall|h2: Heap, r2: Result<Seq<JSValue>, Exception>|
                #[trigger] list_outcome(*heap, es.skip(i + 1), f, args@, h2, r2)
                    implies list_outcome(*old(heap), es, f, Seq::empty(), h2, r2) by {
                assert(stage(*heap, g1));
                assert(list_outcome(hi, es.skip(i as int), f, acc, h2, r2));
            }
        }
        i = i + 1;
    }
    proof {
        assert(es.skip(i as int) =~= Seq::<Expression>::empty());
        assert(list_outcome(*heap, es.skip(i as int), f, args@, *heap, Ok::<Seq<JSValue>, Exception>(args@)));
    }
    Ok(args)
}

impl CallExpression {
    /// Evaluates the arguments, then the callee; a method call passes its
    /// object as `this`, a plain call passes `undefined`.
    pub fn interpret_in(&self, heap: &mut Heap, fuel: u64) -> (r: JSResult<Interpreted>)
        requires
            old(heap).wf(),
        ensures
            !(r matches Err(Exception::Jump(_))),
            call_outcome(*old(heap), *self, fuel as nat, *final(heap), r),
            step(*old(heap), *final(heap), r),
            r matches Ok(i) ==> i is Value,
        decreases fuel,
    {
        if fuel == 0 {
            return Err(out_of_fuel());
        }
        let CallExpression(callee_expr, argument_exprs) = self;
        let ra = evaluate_arguments(argument_exprs, heap, fuel - 1);
        let ghost h1 = *heap;
        let ghost gra = ra;
        let ghost ga = match gra {
            Ok(a) => Ok::<Seq<JSValue>, Exception>(a@),
            Err(x) => Err::<Seq<JSValue>, Exception>(x),
        };
        let args = match ra {
            Ok(a) => a,
            Err(x) => {
                proof {
                    if fuel > 1 {
                        assert(stage((h1, ga), (h1, Err::<Interpreted, Exception>(x))));
                    }
                }
                return Err(x);
            },
        };
        let ghost before = heap.len();
        let p3 = callee_expr.interpret_in(heap, fuel - 1);
        let ghost h3 = *heap;
        let ghost g3 = p3;
        proof {
            assert(stage((h1, ga), (h3, g3)));
        }
        let callee = match p3 {
            Ok(c) => c,
            Err(x) => {
                return Err(x);
            },
        };
        proof {
            lemma_values_valid_mono(args@, before, heap.len());
        }
        let this_ref = match &callee {
            Interpreted::Member { of, name } => {
                if *of == GLOBAL || matches!(heap.objects[*of].payload, Payload::Scope(_)) {
                    JSValue::Undefined
                } else {
                    JSValue::Ref(*of)
                }
            },
            Interpreted::Value(_) => JSValue::Undefined,
        };
        let rf = heap.to_value(&callee);
        let ghost gf = rf;
        let func = match rf {
            Ok(v) => v,
            Err(x) => {
                proof {
                    assert(stage(gf, (h3, gf)));
                }
                return Err(x);
            },
        };
        let func_ref = match func {
            JSValue::Ref(id) => id,
            _ => {
                proof {
                    assert(stage(gf, (h3, gf)));
                }
                return Err(type_error("not a function"));
            },
        };
        let re = heap.execute(func_ref, args, this_ref, fuel - 1);
        proof {
            assert(stage(gf, (*heap, re)));
        }
        match re {
            Ok(v) => Ok(Interpreted::Value(v)),
            Err(x) => Err(x),
        }
    }
}

impl NewExpression {
    /// Allocates an object whose prototype is the callee's `prototype`, and
    /// runs the callee on it; an object the callee returns replaces it.
    pub fn interpret_in(&self, heap: &mut Heap, fuel: u64) -> (r: JSResult<Interpreted>)
        requires
            old(heap).wf(),
        ensures
            !(r matches Err(Exception::Jump(_))),
            new_outcome(*old(heap), *self, fuel as nat, *final(heap), r),
            step(*old(heap), *final(heap), r),
            r matches Ok(i) ==> (i matches Interpreted::Value(JSValue::Ref(_))),
        decreases fuel,
    {
        if fuel == 0 {
            return Err(out_of_fuel());
        }
        let NewExpression(callee_expr, argument_exprs) = self;
        let ra = evaluate_arguments(argument_exprs, heap, fuel - 1);
        let ghost h1 = *heap;
        let ghost gra = ra;
        let ghost ga = match gra {
            Ok(a) => Ok::<Seq<JSValue>, Exception>(a@),
            Err(x) => Err::<Seq<JSValue>, Exception>(x),
        };
        let args = match ra {
            Ok(a) => a,
            Err(x) => {
                proof {
                    if fuel > 1 {
                        assert(stage((h1, ga), (h1, Err::<JSValue, Exception>(x))));
                    }
                }
                return Err(x);
            },
        };
        let ghost before = heap.len();
        let r3 = callee_expr.evaluate_in(heap, fuel - 1);
        let ghost h3 = *heap;
        let ghost g3 = r3;
        proof {
            assert(stage((h1, ga), (h3, g3)));
        }
        let callee = match r3 {
            Ok(v) => v,
            Err(x) => {
                return Err(x);
            },
        };
        proof {
            lemma_values_valid_mono(args@, before, heap.len());
        }
        let funcref = match callee {
            JSValue::Ref(id) => id,
            _ => {
                return Err(type_error("not a constructor"));
            },
        };
        proof {
            reveal_strlit("prototype");
            assert("prototype"@ =~= seq!['p', 'r', 'o', 't', 'o', 't', 'y', 'p', 'e']);
            assert(heap.objects@[funcref as int].valid(heap.len()));
        }
        let prototype = match heap.objects[funcref].get_own_value(&String::from_str("prototype")) {
            Some(JSValue::Ref(p)) => p,
            _ => {
                return Err(type_error("cannot get property prototype"));
            },
        };
        if !heap.has_room() {
            return Err(out_of_memory());
        }
        let ghost before_new = heap.len();
        let object = heap.new_object(prototype);
        let ghost h4 = *heap;
        proof {
            lemma_values_valid_mono(args@, before_new, heap.len());
        }
        let re = heap.execute(funcref, args, JSValue::Ref(object), fuel - 1);
        proof {
            assert(stage(h4, re));
        }
        let result = match re {
            Ok(v) => v,
            Err(x) => {
                return Err(x);
            },
        };
        Ok(Interpreted::Value(construct_result(result, object)))
    }
}

/// The value of `new`: the object the constructor returned, if it returned
/// one, else the object made for it.
pub fn construct_result(returned: JSValue, object: ObjectId) -> (r: JSValue)
    ensures
        r == match returned {
            JSValue::Ref(o) => JSValue::Ref(o),
            _ => JSValue::Ref(object),
        },
{
    match returned {
        JSValue::Ref(o) => JSValue::Ref(o),
        _ => JSValue::Ref(object),
    }
}

impl FunctionExpression {
    /// A function object closing over the current scope.
    pub fn interpret_in(&self, heap: &mut Heap, fuel: u64) -> (r: JSResult<Interpreted>)
        requires
            old(heap).wf(),
        ensures
            !(r matches Err(Exception::Jump(_))),
            function_outcome(*old(heap), *self, *final(heap), r),
            step(*old(heap), *final(heap), r),
            r matches Ok(i) ==> (i matches Interpreted::Value(JSValue::Ref(id)) && id == old(heap).len()
                && (final(heap).objects@[id as int].payload matches Payload::Closure(c) && c.captured_scope == old(heap).scope)),
            old(heap).len() + 8 < usize::MAX ==> r is Ok,
        decreases fuel,
    {
        if !heap.has_room() {
            return Err(out_of_memory());
        }
        let id = heap.new_function(share_function(&self.func));
        Ok(Interpreted::Value(JSValue::Ref(id)))
    }
}

/// Things that can be evaluated on a heap: programs, statements and expressions.
pub trait Interpretable {
    /// What evaluating `self` on heap `h` may end in: heap `h2` and outcome `r`.
    spec fn outcome(&self, h: Heap, h2: Heap, r: JSResult<Interpreted>) -> bool;

    /// Evaluates `self`, possibly to a place.
    fn interpret(&self, heap: &mut Heap) -> (r: JSResult<Interpreted>)
        requires
            old(heap).wf(),
        ensures
            step(*old(heap), *final(heap), r),
            self.outcome(*old(heap), *final(heap), r),
    ;

    /// Evaluates `self` to a value: evaluates it, then reads the place.
    fn evaluate(&self, heap: &mut Heap) -> (r: JSResult<JSValue>)
        requires
            old(heap).wf(),
        ensures
            value_step(*old(heap), *final(heap), r),
            exists|h1: Heap, p: JSResult<Interpreted>|
                #[trigger] stage(h1, p) && self.outcome(*old(heap), h1, p) && *final(heap) == h1 && match p {
                    Ok(place) => read_outcome(h1, place, r),
                    Err(x) => r == Err::<JSValue, Exception>(x),
                },
    ;
}

impl Interpretable for Program {
    open spec fn outcome(&self, h: Heap, h2: Heap, r: JSResult<Interpreted>) -> bool {
        program_outcome(h, *self, DEFAULT_FUEL as nat, h2, r)
    }

    fn interpret(&self, heap: &mut Heap) -> (r: JSResult<Interpreted>) {
        self.interpret_in(heap, DEFAULT_FUEL)
    }

    fn evaluate(&self, heap: &mut Heap) -> (r: JSResult<JSValue>) {
        let p = self.interpret_in(heap, DEFAULT_FUEL);
        proof {
            assert(stage(*heap, p));
        }
        let place = match p {
            Ok(place) => place,
            Err(x) => {
                return Err(x);
            },
        };
        heap.to_value(&place)
    }
}

impl Interpretable for Statement {
    open spec fn outcome(&self, h: Heap, h2: Heap, r: JSResult<Interpreted>) -> bool {
        stmt_outcome(h, *self, DEFAULT_FUEL as nat, h2, r)
    }

    fn interpret(&self, heap: &mut Heap) -> (r: JSResult<Interpreted>) {
        self.interpret_in(heap, DEFAULT_FUEL)
    }

    fn evaluate(&self, heap: &mut Heap) -> (r: JSResult<JSValue>) {
        let p = self.interpret_in(heap, DEFAULT_FUEL);
        proof {
            assert(stage(*heap, p));
        }
        let place = match p {
            Ok(place) => place,
            Err(x) => {
                return Err(x);
            },
        };
        heap.to_value(&place)
    }
}

impl Interpretable for Expression {
    open spec fn outcome(&self, h: Heap, h2: Heap, r: JSResult<Interpreted>) -> bool {
        expr_outcome(h, *self, DEFAULT_FUEL as nat, h2, r)
    }

    fn interpret(&self, heap: &mut Heap) -> (r: JSResult<Interpreted>) {
        self.interpret_in(heap, DEFAULT_FUEL)
    }

    fn evaluate(&self, heap: &mut Heap) -> (r: JSResult<JSValue>) {
        let p = self.interpret_in(heap, DEFAULT_FUEL);
        proof {
            assert(stage(*heap, p));
        }
        let place = match p {
            Ok(place) => place,
            Err(x) => {
                return Err(x);
            },
        };
        heap.to_value(&place)
    }
}

impl Program {
    /// A program of the given top-level statements and declarations.
    pub fn new(body: Vec<Statement>, variables: Vec<Identifier>, functions: Vec<FunctionDeclaration>) -> (r: Program)
        ensures
            r.body.body == body,
            r.variables == variables,
            r.functions == functions,
    {
        Program { body: crate::ast::block(body), variables, functions }
    }
}

impl Heap {
    /// Runs a program at the top level and gives its completion value; a
    /// `break`, `continue` or `return` that reaches the top is an error.
    pub fn evaluate(&mut self, program: &Program) -> (r: JSResult<JSValue>)
        requires
            old(self).wf(),
        ensures
            value_step(*old(self), *final(self), r),
            r matches Err(e) ==> !(e is Jump),
            exists|h1: Heap, p: JSResult<Interpreted>|
                #[trigger] stage(h1, p) && program_outcome(*old(self), *program, DEFAULT_FUEL as nat, h1, p)
                    && *final(self) == h1 && match p {
                    Ok(place) => read_outcome(h1, place, r),
                    Err(Exception::Jump(_)) => r matches Err(Exception::SyntaxTreeError(_)),
                    Err(x) => r == Err::<JSValue, Exception>(x),
                },
    {
        let p = program.interpret_in(self, DEFAULT_FUEL);
        proof {
            assert(stage(*self, p));
        }
        match p {
            Ok(place) => self.to_value(&place),
            Err(Exception::Jump(_)) => Err(Exception::SyntaxTreeError(String::from_str("jump outside of any loop or function"))),
            Err(e) => Err(e),
        }
    }

    /// The text of a value, as a top level shows a result.
    pub fn display(&self, v: &JSValue) -> (r: String)
        requires
            self.wf(),
            self.valid(*v),
        ensures
            !(v is Ref) ==> r@ == primitive_text(*v),
    {
        self.stringify(v)
    }
}
} // verus!
