use vstd::prelude::*;
use crate::heap::{Heap, NULL, with_caller};
use crate::object::{JSObject, Payload};

verus! {

/// A point in the source text.
#[derive(Clone, Copy, Debug, PartialEq, Eq, Structural)]
pub struct Position {
    pub line: usize,
    pub column: usize,
}

/// The stretch of source text that a syntax node came from.
#[derive(Clone, Copy, Debug, PartialEq, Eq, Structural)]
pub struct Location {
    pub start: Position,
    pub end: Position,
}

/// A source document, known by its name.
#[derive(Clone, Debug)]
pub struct Document {
    pub name: String,
}

/// Records in the current scope where the call that entered it came from.
/// With no location the heap is left as it is. So it is at the global scope:
/// no call made that scope, and it has no call-site slot (a call stack ends
/// there), so there is nothing to record.
pub fn save_caller(caller: Option<Box<Location>>, heap: &mut Heap)
    requires
        old(heap).wf(),
    ensures
        final(heap).wf(),
        match caller {
            Some(l) => *final(heap) == Heap {
                objects: final(heap).objects,
                ..*old(heap)
            } && final(heap).objects@ == old(heap).objects@.update(
                old(heap).scope as int,
                with_caller(old(heap).objects@[old(heap).scope as int], *l),
            ),
            None => *final(heap) == *old(heap),
        },
        !(old(heap).objects@[old(heap).scope as int].payload is Scope) ==> final(heap).objects@ == old(heap).objects@,
{
    if let Some(l) = caller {
        let scope = heap.scope;
        heap.set_caller(scope, *l);
        proof {
            if !(old(heap).objects@[old(heap).scope as int].payload is Scope) {
                assert(heap.objects@ =~= old(heap).objects@);
            }
        }
    }
}

/// The call sites recorded on the chain of scopes from `id` outwards.
pub open spec fn call_sites(objs: Seq<JSObject>, id: int) -> Seq<Option<Location>>
    decreases id,
{
    if id <= 0 || id >= objs.len() {
        Seq::empty()
    } else {
        match objs[id].payload {
            Payload::Scope(f) => if f.saved_scope < id {
                seq![f.caller] + call_sites(objs, f.saved_scope as int)
            } else {
                seq![f.caller]
            },
            _ => Seq::empty(),
        }
    }
}

/// The recorded call sites, innermost first: for each scope on the lexical
/// chain from the current one, the location of the call that made it.
pub fn callstack(heap: &Heap) -> (r: Vec<Option<Location>>)
    requires
        heap.wf(),
    ensures
        r@ == call_sites(heap.objects@, heap.scope as int),
{
    let mut out: Vec<Option<Location>> = Vec::new();
    let mut cur = heap.scope;
    while cur != NULL
        invariant
            heap.wf(),
            cur < heap.len(),
            out@ + call_sites(heap.objects@, cur as int) == call_sites(heap.objects@, heap.scope as int),
        decreases cur,
    {
        match &heap.objects[cur].payload {
            Payload::Scope(frame) => {
                let ghost before = out@;
                out.push(frame.caller);
                proof {
                    assert(heap.objects@[cur as int].payload->Scope_0.saved_scope < cur);
                    assert(before + call_sites(heap.objects@, cur as int) =~= out@ + call_sites(heap.objects@, frame.saved_scope as int));
                }
                cur = frame.saved_scope;
            },
            _ => {
                cur = NULL;
            },
        }
    }
    proof {
        assert(out@ + call_sites(heap.objects@, 0) =~= out@);
    }
    out
}

} // verus!
