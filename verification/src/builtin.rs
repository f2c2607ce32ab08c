use crate::heap::{DataView, ObjView, Value};
use crate::vm::{Vm, VmModel};
use vstd::prelude::*;

verus! {

/// The stack with `n` values taken off its top, or emptied where it holds
/// fewer.
pub open spec fn popped(s: Seq<Value>, n: int) -> Seq<Value> {
    if n <= s.len() {
        s.take(s.len() - n)
    } else {
        Seq::empty()
    }
}

/// The state after `vec.push(e)` is called natively: the element (nil
/// where the stack is empty), the vector and the callee come off the stack,
/// the element is appended where the vector value refers to a vector
/// object, and nil, the call's value, goes on the stack.
pub open spec fn vec_push_result(m: VmModel) -> VmModel {
    let e = if m.stack.len() > 0 { m.stack.last() } else { Value::Nil };
    let s1 = popped(m.stack, 1);
    let s2 = popped(s1, 1);
    let s3 = popped(s2, 1);
    let after = VmModel { stack: s3.push(Value::Nil), ..m };
    if s1.len() > 0 {
        match m.elements(s1.last(), true) {
            Some((h, items)) => after.with_object(
                h,
                ObjView { mark: m.objects[h].mark, data: DataView::Vec(items.push(e)) },
            ),
            None => after,
        }
    } else {
        after
    }
}

/// Pops a value, if there is one.
fn pop(vm: &mut Vm) -> (r: Option<Value>)
    ensures
        final(vm).wf() == old(vm).wf(),
        r == (if old(vm)@.stack.len() > 0 {
            Some(old(vm)@.stack.last())
        } else {
            None
        }),
        final(vm)@ == (VmModel { stack: popped(old(vm)@.stack, 1), ..old(vm)@ }),
{
    let r = vm.pop_stack();
    proof {
        assert(popped(old(vm)@.stack, 1) =~= (if old(vm)@.stack.len() > 0 {
            old(vm)@.stack.drop_last()
        } else {
            old(vm)@.stack
        }));
    }
    r
}

/// The native `push` of vectors: appends the element on top of the stack
/// to the vector below it, then takes both and the callee off the stack
/// and leaves nil, the call's value.
pub fn builtin_vec_push(vm: &mut Vm)
    requires
        old(vm).wf(),
    ensures
        final(vm).wf(),
        final(vm)@ == vec_push_result(old(vm)@),
{
    let e = match pop(vm) {
        Some(v) => v,
        None => Value::Nil,
    };
    let target = pop(vm);
    match target {
        Some(t) => {
            vm.push_element(t, e);
        },
        None => {},
    }
    pop(vm);
    vm.push_stack(Value::Nil);
    proof {
        let m = old(vm)@;
        assert(popped(popped(popped(m.stack, 1), 1), 1).push(Value::Nil) =~= vm@.stack);
    }
}

/// The native `timestamp`: takes its `arg_cnt` arguments and the callee
/// off the stack and gives back the host's clock reading `now`, the bits of
/// the seconds since the Unix epoch as a float.
pub fn builtin_timestamp(vm: &mut Vm, arg_cnt: u16, now: u64) -> (r: Value)
    ensures
        final(vm).wf() == old(vm).wf(),
        final(vm)@ == (VmModel { stack: popped(old(vm)@.stack, arg_cnt + 1), ..old(vm)@ }),
        r == Value::Float(now),
{
    let mut i: u16 = 0;
    while i < arg_cnt
        invariant
            i <= arg_cnt,
            vm.wf() == old(vm).wf(),
            vm@ == (VmModel { stack: popped(old(vm)@.stack, i as int), ..old(vm)@ }),
        decreases arg_cnt - i,
    {
        pop(vm);
        proof {
            assert(popped(popped(old(vm)@.stack, i as int), 1) =~= popped(old(vm)@.stack, i + 1));
        }
        i = i + 1;
    }
    pop(vm);
    proof {
        assert(popped(popped(old(vm)@.stack, arg_cnt as int), 1) =~= popped(
            old(vm)@.stack,
            arg_cnt + 1,
        ));
    }
    Value::Float(now)
}

/// The state after `vec.len()` is called natively: the vector (a value
/// that refers to no vector counts as empty) and the callee come off the
/// stack, and the number of elements goes on it.
pub open spec fn vec_len_result(m: VmModel) -> VmModel {
    let n: i64 = if m.stack.len() > 0 {
        match m.elements(m.stack.last(), true) {
            Some((_, e)) => e.len() as i64,
            None => 0,
        }
    } else {
        0
    };
    VmModel { stack: popped(popped(m.stack, 1), 1).push(Value::Int(n)), ..m }
}

/// The native `len` of vectors: takes the vector and the callee off the
/// stack and leaves the number of its elements.
pub fn builtin_vec_len(vm: &mut Vm)
    requires
        old(vm).wf(),
    ensures
        final(vm).wf(),
        final(vm)@ == vec_len_result(old(vm)@),
{
    let v = pop(vm);
    pop(vm);
    let size: usize = match v {
        Some(x) => match vm.element_count(x) {
            Some(n) => n,
            None => 0,
        },
        None => 0,
    };
    vm.push_stack(Value::Int(#[verifier::truncate] (size as i64)));
    proof {
        let m = old(vm)@;
        assert(popped(popped(m.stack, 1), 1).push(vm@.stack.last()) =~= vm@.stack);
    }
}

} // verus!
