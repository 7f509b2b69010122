use vstd::prelude::*;
use std::rc::Rc;
use crate::native::{native_result, registry, spec_registry_values};
use crate::value::{Function, Value, spec_is_falsey};
use crate::compiler::Op;

verus! {

/// A fatal condition: an arity mismatch, a call of a non-callable value, a
/// leftover backpatch placeholder, operands a built-in does not support, or
/// a malformed chunk caught by the machine's own checks. These mark a
/// compiler defect, never a user error, and end the run.
#[derive(Clone, Copy, Debug, PartialEq, Eq, Structural)]
pub enum VmError {
    ArityMismatch,
    NotCallable,
    PlaceholderExecuted,
    NativeOperands,
    StackUnderflow,
    NoFrames,
    IpOutOfRange,
    BadConstant,
    BadLocal,
    BadJump,
}

/// One activation record: a shared handle to the running function, its
/// instruction pointer, and the stack index of its first parameter.
struct Frame {
    function: Rc<Function>,
    ip: usize,
    offset: usize,
}

/// An activation record as the specification sees it.
#[verifier::ext_equal]
pub ghost struct FrameSnap {
    pub function: Rc<Function>,
    pub ip: int,
    pub offset: int,
}

/// The whole machine state as the specification sees it: the value stack
/// and the call-frame stack.
#[verifier::ext_equal]
pub ghost struct VmSnap {
    pub stack: Seq<Value>,
    pub frames: Seq<FrameSnap>,
}

/// What one instruction step produces: a next state, the program's final
/// value, or a fatal condition.
pub ghost enum Outcome {
    Running(VmSnap),
    Done(Value),
    Fatal(VmError),
}

spec fn frame_view(f: Frame) -> FrameSnap {
    FrameSnap { function: f.function, ip: f.ip as int, offset: f.offset as int }
}

/// Advance the top frame's instruction pointer by one.
pub open spec fn bump(frames: Seq<FrameSnap>) -> Seq<FrameSnap> {
    let last = frames.last();
    frames.update(frames.len() - 1, FrameSnap { ip: last.ip + 1, ..last })
}

/// Set the top frame's instruction pointer.
pub open spec fn with_ip(s: VmSnap, ip: int) -> VmSnap {
    let last = s.frames.last();
    VmSnap { stack: s.stack, frames: s.frames.update(s.frames.len() - 1, FrameSnap { ip, ..last }) }
}

/// Push one value and move past the current instruction.
pub open spec fn push_next(s: VmSnap, v: Value) -> Outcome {
    Outcome::Running(VmSnap { stack: s.stack.push(v), frames: bump(s.frames) })
}

/// One call step: the callee sits `n` slots below the top, pushed before
/// its arguments. Its declared arity must equal `n`; a mismatch is fatal.
/// Calling a function pushes a new frame and leaves the caller's
/// instruction pointer alone (it advances when the callee returns), so the
/// machine never recurses into the host to run a user call. Calling a
/// built-in replaces the callee and arguments by the single result.
pub open spec fn step_call(s: VmSnap, n: int) -> Outcome {
    let len = s.stack.len() as int;
    if n + 1 > len {
        Outcome::Fatal(VmError::StackUnderflow)
    } else {
        match s.stack[len - 1 - n] {
            Value::Function(g) => {
                if g.arity != n {
                    Outcome::Fatal(VmError::ArityMismatch)
                } else {
                    Outcome::Running(
                        VmSnap {
                            stack: s.stack,
                            frames: s.frames.push(
                                FrameSnap { function: g, ip: 0, offset: len - n },
                            ),
                        },
                    )
                }
            },
            Value::Native(na) => {
                if na.arity != n {
                    Outcome::Fatal(VmError::ArityMismatch)
                } else {
                    match native_result(na.op, s.stack.subrange(len - n, len)) {
                        Some(v) => Outcome::Running(
                            VmSnap {
                                stack: s.stack.take(len - 1 - n).push(v),
                                frames: bump(s.frames),
                            },
                        ),
                        None => Outcome::Fatal(VmError::NativeOperands),
                    }
                }
            },
            _ => Outcome::Fatal(VmError::NotCallable),
        }
    }
}

/// One return step: pop the result and the current frame; with no frames
/// left the result is the program's final value; otherwise the stack is
/// cut back to just below the popped frame's base (discarding its locals
/// and the callee slot), the result is pushed, and the caller resumes at
/// the instruction after its call.
pub open spec fn step_return(s: VmSnap) -> Outcome {
    if s.stack.len() == 0 {
        Outcome::Fatal(VmError::StackUnderflow)
    } else {
        let v = s.stack.last();
        let rest = s.frames.drop_last();
        if rest.len() == 0 {
            Outcome::Done(v)
        } else {
            let off = s.frames.last().offset;
            if 1 <= off <= s.stack.len() && rest.last().ip + 1 <= usize::MAX {
                Outcome::Running(VmSnap { stack: s.stack.take(off - 1).push(v), frames: bump(rest) })
            } else {
                Outcome::Fatal(VmError::StackUnderflow)
            }
        }
    }
}

/// One dispatch step of the machine, total over every state: each
/// malformed situation maps to its fatal condition.
pub open spec fn vm_step(s: VmSnap) -> Outcome {
    if s.frames.len() == 0 {
        Outcome::Fatal(VmError::NoFrames)
    } else {
        let fr = s.frames.last();
        let code = fr.function.chunk.code@;
        if !(0 <= fr.ip < code.len()) {
            Outcome::Fatal(VmError::IpOutOfRange)
        } else {
            match code[fr.ip] {
                Op::Nil => push_next(s, Value::Nil),
                Op::False => push_next(s, Value::Bool(false)),
                Op::True => push_next(s, Value::Bool(true)),
                Op::Constant(i) => {
                    if i < fr.function.chunk.constants@.len() {
                        push_next(s, fr.function.chunk.constants@[i as int])
                    } else {
                        Outcome::Fatal(VmError::BadConstant)
                    }
                },
                Op::Var(i) => {
                    if fr.offset + i < s.stack.len() {
                        push_next(s, s.stack[fr.offset + i])
                    } else {
                        Outcome::Fatal(VmError::BadLocal)
                    }
                },
                Op::Jump(d) => {
                    if fr.ip + d < code.len() {
                        Outcome::Running(with_ip(s, fr.ip + d))
                    } else {
                        Outcome::Fatal(VmError::BadJump)
                    }
                },
                Op::JumpIfFalse(d) => {
                    if s.stack.len() == 0 {
                        Outcome::Fatal(VmError::StackUnderflow)
                    } else if spec_is_falsey(s.stack.last()) {
                        if fr.ip + d < code.len() {
                            Outcome::Running(with_ip(s, fr.ip + d))
                        } else {
                            Outcome::Fatal(VmError::BadJump)
                        }
                    } else {
                        Outcome::Running(with_ip(s, fr.ip + 1))
                    }
                },
                Op::Pop => {
                    if s.stack.len() == 0 {
                        Outcome::Fatal(VmError::StackUnderflow)
                    } else {
                        Outcome::Running(
                            VmSnap { stack: s.stack.drop_last(), frames: bump(s.frames) },
                        )
                    }
                },
                Op::Squash => {
                    if s.stack.len() < 2 {
                        Outcome::Fatal(VmError::StackUnderflow)
                    } else {
                        Outcome::Running(
                            VmSnap {
                                stack: s.stack.drop_last().drop_last().push(s.stack.last()),
                                frames: bump(s.frames),
                            },
                        )
                    }
                },
                Op::Call(n) => step_call(s, n as int),
                Op::Return => step_return(s),
                Op::Unreachable => Outcome::Fatal(VmError::PlaceholderExecuted),
            }
        }
    }
}

/// The machine run for `n` steps, stopping early at a final value or a
/// fatal condition.
pub open spec fn vm_steps(s: VmSnap, n: nat) -> Outcome
    decreases n,
{
    if n == 0 {
        Outcome::Running(s)
    } else {
        match vm_step(s) {
            Outcome::Running(s2) => vm_steps(s2, (n - 1) as nat),
            o => o,
        }
    }
}

/// Running one more step from wherever `n` steps lead.
pub proof fn lemma_vm_steps_snoc(s: VmSnap, n: nat)
    ensures
        vm_steps(s, n) matches Outcome::Running(t) ==> vm_steps(s, n + 1) == vm_step(t),
    decreases n,
{
    match vm_step(s) {
        Outcome::Running(s2) => {
            if n == 0 {
                assert(vm_steps(s, 1) == vm_steps(s2, 0));
            } else {
                lemma_vm_steps_snoc(s2, (n - 1) as nat);
                assert(vm_steps(s, n) == vm_steps(s2, (n - 1) as nat));
                assert(vm_steps(s, n + 1) == vm_steps(s2, n));
            }
        },
        _ => {
            assert(vm_steps(s, n + 1) == vm_step(s));
        },
    }
}

/// The machine's starting state for a compiled entry function: the
/// built-ins' values stand on the stack, in registry order, where the
/// outermost frame's names resolve to them; one frame runs the entry
/// function from its first instruction with base offset zero.
pub open spec fn init_snap(function: Rc<Function>) -> VmSnap {
    VmSnap {
        stack: spec_registry_values(),
        frames: seq![FrameSnap { function, ip: 0, offset: 0 }],
    }
}

enum StepOut {
    Cont,
    Done(Value),
    Fail(VmError),
}

/// The virtual machine: a growable value stack and a growable frame stack,
/// driven by one flat dispatch loop.
pub struct VM {
    stack: Vec<Value>,
    frames: Vec<Frame>,
}

impl VM {
    /// The machine state as the specification sees it.
    pub closed spec fn snap(self) -> VmSnap {
        VmSnap {
            stack: self.stack@,
            frames: self.frames@.map_values(|f: Frame| frame_view(f)),
        }
    }

    /// A fresh machine for a compiled entry function, in exactly the
    /// starting state `init_snap` describes.
    pub fn new(function: Rc<Function>) -> (vm: VM)
        ensures
            vm.snap() == init_snap(function),
    {
        let reg = registry();
        let mut stack: Vec<Value> = Vec::new();
        let mut i: usize = 0;
        while i < reg.len()
            invariant
                i <= reg@.len(),
                reg@.len() == spec_registry_values().len(),
                forall|j: int| 0 <= j < reg@.len() ==> (#[trigger] reg@[j]).1
                    == crate::native::spec_registry()[j].1,
                stack@.len() == i,
                forall|j: int| 0 <= j < i ==> (#[trigger] stack@[j]) == spec_registry_values()[j],
            decreases reg@.len() - i,
        {
            stack.push(Value::Native(reg[i].1));
            i = i + 1;
        }
        let mut frames: Vec<Frame> = Vec::new();
        frames.push(Frame { function, ip: 0, offset: 0 });
        let vm = VM { stack, frames };
        proof {
            assert(vm.snap().stack =~= spec_registry_values());
            assert(vm.snap().frames =~= init_snap(vm.frames@[0].function).frames);
            assert(vm.snap() =~~= init_snap(vm.frames@[0].function));
        }
        vm
    }

    /// Execute one instruction, exactly as `vm_step` says.
    fn step(&mut self) -> (r: StepOut)
        ensures
            match r {
                StepOut::Cont => vm_step(old(self).snap()) == Outcome::Running(final(self).snap()),
                StepOut::Done(v) => vm_step(old(self).snap()) == Outcome::Done(v),
                StepOut::Fail(e) => vm_step(old(self).snap()) == Outcome::Fatal(e),
            },
    {
        let ghost s0 = old(self).snap();
        if self.frames.len() == 0 {
            return StepOut::Fail(VmError::NoFrames);
        }
        let mut fr = self.frames.pop().unwrap();
        proof {
            assert(s0.frames.last() == frame_view(fr));
            assert(self.frames@.map_values(|f: Frame| frame_view(f)) =~= s0.frames.drop_last());
        }
        let code_len = fr.function.chunk.code.len();
        if fr.ip >= code_len {
            return StepOut::Fail(VmError::IpOutOfRange);
        }
        let op = fr.function.chunk.code[fr.ip];
        match op {
            Op::Nil => {
                self.stack.push(Value::Nil);
                fr.ip = fr.ip + 1;
                self.frames.push(fr);
                proof {
                    assert(self.snap().frames =~= bump(s0.frames));
                    assert(self.snap() =~~= (VmSnap {
                        stack: s0.stack.push(Value::Nil),
                        frames: bump(s0.frames),
                    }));
                }
                StepOut::Cont
            },
            Op::False => {
                self.stack.push(Value::Bool(false));
                fr.ip = fr.ip + 1;
                self.frames.push(fr);
                proof {
                    assert(self.snap().frames =~= bump(s0.frames));
                    assert(self.snap() =~~= (VmSnap {
                        stack: s0.stack.push(Value::Bool(false)),
                        frames: bump(s0.frames),
                    }));
                }
                StepOut::Cont
            },
            Op::True => {
                self.stack.push(Value::Bool(true));
                fr.ip = fr.ip + 1;
                self.frames.push(fr);
                proof {
                    assert(self.snap().frames =~= bump(s0.frames));
                    assert(self.snap() =~~= (VmSnap {
                        stack: s0.stack.push(Value::Bool(true)),
                        frames: bump(s0.frames),
                    }));
                }
                StepOut::Cont
            },
            Op::Constant(i) => {
                if i >= fr.function.chunk.constants.len() {
                    return StepOut::Fail(VmError::BadConstant);
                }
                let v = fr.function.chunk.constants[i].dup();
                self.stack.push(v);
                fr.ip = fr.ip + 1;
                self.frames.push(fr);
                proof {
                    assert(self.snap().frames =~= bump(s0.frames));
                    assert(self.snap() =~~= (VmSnap {
                        stack: s0.stack.push(s0.frames.last().function.chunk.constants@[i as int]),
                        frames: bump(s0.frames),
                    }));
                }
                StepOut::Cont
            },
            Op::Var(i) => {
                let sl = self.stack.len();
                if !(i < sl && fr.offset < sl - i) {
                    return StepOut::Fail(VmError::BadLocal);
                }
                let v = self.stack[fr.offset + i].dup();
                self.stack.push(v);
                fr.ip = fr.ip + 1;
                self.frames.push(fr);
                proof {
                    assert(self.snap().frames =~= bump(s0.frames));
                    assert(self.snap() =~~= (VmSnap {
                        stack: s0.stack.push(s0.stack[s0.frames.last().offset + i]),
                        frames: bump(s0.frames),
                    }));
                }
                StepOut::Cont
            },
            Op::Jump(d) => {
                if !(d < code_len - fr.ip) {
                    return StepOut::Fail(VmError::BadJump);
                }
                fr.ip = fr.ip + d;
                self.frames.push(fr);
                proof {
                    assert(self.snap().frames =~= with_ip(s0, s0.frames.last().ip + d).frames);
                    assert(self.snap() =~~= with_ip(s0, s0.frames.last().ip + d));
                }
                StepOut::Cont
            },
            Op::JumpIfFalse(d) => {
                if self.stack.len() == 0 {
                    return StepOut::Fail(VmError::StackUnderflow);
                }
                let falsey = self.stack[self.stack.len() - 1].is_falsey();
                if falsey {
                    if !(d < code_len - fr.ip) {
                        return StepOut::Fail(VmError::BadJump);
                    }
                    fr.ip = fr.ip + d;
                    self.frames.push(fr);
                    proof {
                        assert(self.snap().frames =~= with_ip(s0, s0.frames.last().ip + d).frames);
                        assert(self.snap() =~~= with_ip(s0, s0.frames.last().ip + d));
                    }
                    StepOut::Cont
                } else {
                    fr.ip = fr.ip + 1;
                    self.frames.push(fr);
                    proof {
                        assert(self.snap().frames =~= with_ip(s0, s0.frames.last().ip + 1).frames);
                        assert(self.snap() =~~= with_ip(s0, s0.frames.last().ip + 1));
                    }
                    StepOut::Cont
                }
            },
            Op::Pop => {
                if self.stack.len() == 0 {
                    return StepOut::Fail(VmError::StackUnderflow);
                }
                let _ = self.stack.pop();
                fr.ip = fr.ip + 1;
                self.frames.push(fr);
                proof {
                    assert(self.snap().frames =~= bump(s0.frames));
                    assert(self.snap() =~~= (VmSnap {
                        stack: s0.stack.drop_last(),
                        frames: bump(s0.frames),
                    }));
                }
                StepOut::Cont
            },
            Op::Squash => {
                if self.stack.len() < 2 {
                    return StepOut::Fail(VmError::StackUnderflow);
                }
                let v = self.stack.pop().unwrap();
                let _ = self.stack.pop();
                self.stack.push(v);
                fr.ip = fr.ip + 1;
                self.frames.push(fr);
                proof {
                    assert(self.snap().frames =~= bump(s0.frames));
                    assert(self.snap() =~~= (VmSnap {
                        stack: s0.stack.drop_last().drop_last().push(s0.stack.last()),
                        frames: bump(s0.frames),
                    }));
                }
                StepOut::Cont
            },
            Op::Call(n) => {
                let sl = self.stack.len();
                if n >= sl {
                    return StepOut::Fail(VmError::StackUnderflow);
                }
                let ci = sl - 1 - n;
                let callee = self.stack[ci].dup();
                match callee {
                    Value::Function(g) => {
                        if g.arity != n {
                            return StepOut::Fail(VmError::ArityMismatch);
                        }
                        self.frames.push(fr);
                        self.frames.push(Frame { function: g, ip: 0, offset: sl - n });
                        proof {
                            assert(self.snap().frames =~= s0.frames.push(
                                self.snap().frames.last(),
                            ));
                            assert(self.snap() =~~= (VmSnap {
                                stack: s0.stack,
                                frames: s0.frames.push(self.snap().frames.last()),
                            }));
                        }
                        StepOut::Cont
                    },
                    Value::Native(na) => {
                        if na.arity != n {
                            return StepOut::Fail(VmError::ArityMismatch);
                        }
                        let mut args: Vec<Value> = Vec::new();
                        let mut j = ci + 1;
                        while j < sl
                            invariant
                                ci + 1 <= j <= sl,
                                sl == self.stack@.len(),
                                ci == sl - 1 - n,
                                args@ =~= self.stack@.subrange(ci + 1, j as int),
                            decreases sl - j,
                        {
                            let a = self.stack[j].dup();
                            args.push(a);
                            proof {
                                assert(args@ =~= self.stack@.subrange(ci + 1, j + 1));
                            }
                            j = j + 1;
                        }
                        proof {
                            assert(args@ =~= s0.stack.subrange(
                                s0.stack.len() - n,
                                s0.stack.len() as int,
                            ));
                        }
                        match crate::native::apply(na.op, &args) {
                            None => StepOut::Fail(VmError::NativeOperands),
                            Some(v) => {
                                self.stack.truncate(ci);
                                self.stack.push(v);
                                fr.ip = fr.ip + 1;
                                self.frames.push(fr);
                                proof {
                                    assert(self.snap().frames =~= bump(s0.frames));
                                    assert(self.snap().stack =~= s0.stack.take(
                                        s0.stack.len() - 1 - n,
                                    ).push(v));
                                    assert(self.snap() =~~= (VmSnap {
                                        stack: s0.stack.take(s0.stack.len() - 1 - n).push(v),
                                        frames: bump(s0.frames),
                                    }));
                                }
                                StepOut::Cont
                            },
                        }
                    },
                    _ => StepOut::Fail(VmError::NotCallable),
                }
            },
            Op::Return => {
                if self.stack.len() == 0 {
                    return StepOut::Fail(VmError::StackUnderflow);
                }
                let v = self.stack.pop().unwrap();
                if self.frames.len() == 0 {
                    proof {
                        assert(s0.frames.drop_last().len() == 0);
                    }
                    return StepOut::Done(v);
                }
                let off = fr.offset;
                let sl = self.stack.len();
                if off < 1 || off - 1 > sl {
                    return StepOut::Fail(VmError::StackUnderflow);
                }
                let mut caller = self.frames.pop().unwrap();
                if caller.ip == usize::MAX {
                    return StepOut::Fail(VmError::StackUnderflow);
                }
                self.stack.truncate(off - 1);
                self.stack.push(v);
                caller.ip = caller.ip + 1;
                self.frames.push(caller);
                proof {
                    let rest = s0.frames.drop_last();
                    assert(self.snap().frames =~= bump(rest));
                    assert(self.snap().stack =~= s0.stack.take(s0.frames.last().offset - 1).push(
                        s0.stack.last(),
                    ));
                    assert(self.snap() =~~= (VmSnap {
                        stack: s0.stack.take(s0.frames.last().offset - 1).push(s0.stack.last()),
                        frames: bump(rest),
                    }));
                }
                StepOut::Cont
            },
            Op::Unreachable => StepOut::Fail(VmError::PlaceholderExecuted),
        }
    }

    /// Run the dispatch loop for at most `fuel` instructions. `None` means
    /// the budget ran out with the program still going; the machine keeps
    /// its state, so calling `run` again resumes it. Otherwise the result
    /// is the program's final value or the fatal condition, exactly as
    /// iterating `vm_step` from the starting state says.
    pub fn run(&mut self, fuel: usize) -> (r: Option<Result<Value, VmError>>)
        ensures
            match r {
                None => vm_steps(old(self).snap(), fuel as nat) == Outcome::Running(
                    final(self).snap(),
                ),
                Some(res) => match res {
                    Result::Ok(v) => exists|n: nat|
                        n <= fuel && vm_steps(old(self).snap(), n) == Outcome::Done(v),
                    Result::Err(e) => exists|n: nat|
                        n <= fuel && vm_steps(old(self).snap(), n) == Outcome::Fatal(e),
                },
            },
    {
        let ghost s0 = old(self).snap();
        let mut k: usize = 0;
        while k < fuel
            invariant
                k <= fuel,
                s0 == old(self).snap(),
                vm_steps(s0, k as nat) == Outcome::Running(self.snap()),
            decreases fuel - k,
        {
            let ghost cur = self.snap();
            let out = self.step();
            proof {
                lemma_vm_steps_snoc(s0, k as nat);
            }
            match out {
                StepOut::Cont => {},
                StepOut::Done(v) => {
                    proof {
                        let w: nat = (k + 1) as nat;
                        assert(w <= fuel && vm_steps(s0, w) == Outcome::Done(v));
                        assert(exists|n: nat| n <= fuel && vm_steps(s0, n) == Outcome::Done(v));
                    }
                    return Some(Ok(v));
                },
                StepOut::Fail(e) => {
                    proof {
                        let w: nat = (k + 1) as nat;
                        assert(w <= fuel && vm_steps(s0, w) == Outcome::Fatal(e));
                        assert(exists|n: nat| n <= fuel && vm_steps(s0, n) == Outcome::Fatal(e));
                    }
                    return Some(Err(e));
                },
            }
            k = k + 1;
        }
        None
    }
}


/// Law: a call instruction whose callee is a function of a different
/// declared arity makes the machine stop with a fatal arity mismatch; no
/// value-level result is produced. The same holds for a built-in whose
/// declared arity differs from the argument count.
pub proof fn lemma_call_arity_mismatch_fatal(s: VmSnap, n: usize)
    requires
        s.frames.len() > 0,
        0 <= s.frames.last().ip < s.frames.last().function.chunk.code@.len(),
        s.frames.last().function.chunk.code@[s.frames.last().ip] == Op::Call(n),
        n + 1 <= s.stack.len(),
        ({
            let callee = s.stack[s.stack.len() - 1 - n];
            (callee matches Value::Function(g) && g.arity != n) || (callee matches Value::Native(
                na,
            ) && na.arity != n)
        }),
    ensures
        vm_step(s) == Outcome::Fatal(VmError::ArityMismatch),
{
}

/// Law: the combine instruction (a `let`'s epilogue) pops the body's
/// result and the dead bound value beneath it and pushes the result back:
/// the stack ends exactly one shorter, its top preserved, and the frame
/// stack untouched but for the advancing instruction pointer. So after a
/// `let` the stack regains the depth it had before the bound value was
/// pushed.
pub proof fn lemma_squash_restores_depth(s: VmSnap)
    requires
        s.frames.len() > 0,
        0 <= s.frames.last().ip < s.frames.last().function.chunk.code@.len(),
        s.frames.last().function.chunk.code@[s.frames.last().ip] == Op::Squash,
        s.stack.len() >= 2,
    ensures
        vm_step(s) matches Outcome::Running(t) && t.stack.len() == s.stack.len() - 1
            && t.stack.last() == s.stack.last() && t.frames.len() == s.frames.len(),
{
}

} // verus!
