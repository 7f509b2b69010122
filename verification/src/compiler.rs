use vstd::prelude::*;
use crate::native::spec_registry;
use crate::token::{CompileError, ErrorKind, Token, TokenKind};
use crate::tokenizer::{copy_range, is_digit, tokenize, LexResult, lex_from, SpecToken, tok_view};
use crate::value::{Function, Value};

verus! {

/// One machine instruction.
///
/// Jump operands are relative: the operand is the forward distance from the
/// jump instruction's own index to the target index. A `Call` operand is the
/// argument count; the callee sits that many slots below the stack top.
/// `Unreachable` is the placeholder written where a forward jump's target is
/// not yet known; backpatching overwrites it in place, and executing one is
/// an internal fault, never a user error.
#[derive(Clone, Copy, Debug, PartialEq, Eq, Structural)]
pub enum Op {
    Nil,
    False,
    True,
    Constant(usize),
    Var(usize),
    Jump(usize),
    JumpIfFalse(usize),
    Call(usize),
    Return,
    Pop,
    Squash,
    Unreachable,
}

/// An owned, append-only instruction sequence with its parallel constant
/// pool.
#[derive(Debug, PartialEq)]
pub struct Chunk {
    pub code: Vec<Op>,
    pub constants: Vec<Value>,
}

/// No instruction in this code is a leftover backpatch placeholder.
pub open spec fn wf_code(code: Seq<Op>) -> bool {
    forall|i: int| 0 <= i < code.len() ==> !((#[trigger] code[i]) is Unreachable)
}

/// A value is well formed when every function it carries is.
pub open spec fn wf_value(v: Value) -> bool
    decreases v,
{
    match v {
        Value::Function(f) => wf_chunk(f.chunk),
        _ => true,
    }
}

/// A chunk is well formed when no placeholder is left in its code and every
/// constant is itself well formed.
pub open spec fn wf_chunk(c: Chunk) -> bool
    decreases c,
{
    &&& wf_code(c.code@)
    &&& forall|i: int| 0 <= i < c.constants@.len() ==> wf_value(#[trigger] c.constants@[i])
}

/// A function is well formed when its chunk is.
pub open spec fn wf_function(f: Function) -> bool {
    wf_chunk(f.chunk)
}

impl Chunk {
    /// An empty chunk.
    pub fn new() -> (c: Chunk)
        ensures
            c.code@ == Seq::<Op>::empty(),
            c.constants@ == Seq::<Value>::empty(),
    {
        Chunk { code: Vec::new(), constants: Vec::new() }
    }

    /// Append one instruction.
    pub fn emit(&mut self, op: Op)
        ensures
            final(self).code@ == old(self).code@.push(op),
            final(self).constants == old(self).constants,
    {
        self.code.push(op);
    }

    /// Overwrite the instruction at `i` in place (backpatching).
    pub fn patch(&mut self, i: usize, op: Op)
        requires
            i < old(self).code@.len(),
        ensures
            final(self).code@ == old(self).code@.update(i as int, op),
            final(self).constants == old(self).constants,
    {
        self.code[i] = op;
    }

    /// Add a constant to the pool and return its index.
    pub fn add_constant(&mut self, v: Value) -> (i: usize)
        ensures
            final(self).constants@ == old(self).constants@.push(v),
            final(self).code == old(self).code,
            i == old(self).constants@.len(),
    {
        let i = self.constants.len();
        self.constants.push(v);
        i
    }
}


/// The name-resolution scope of one function literal being compiled: its
/// in-scope names (parameters and `let` bindings, most recent last), its
/// declared arity, and the chunk under construction. A nested frame starts
/// with an empty name list: resolution never crosses a frame boundary.
pub struct Frame {
    pub names: Vec<Vec<u8>>,
    pub arity: usize,
    pub chunk: Chunk,
}

/// The scope's names as byte sequences.
pub open spec fn names_view(names: Seq<Vec<u8>>) -> Seq<Seq<u8>> {
    names.map_values(|n: Vec<u8>| n@)
}

/// Innermost-to-outermost search of one frame's name list: the slot of the
/// most recent binding of `name`, if any. Only this one frame is ever
/// consulted.
pub open spec fn resolve_spec(names: Seq<Seq<u8>>, name: Seq<u8>) -> Option<int>
    decreases names.len(),
{
    if names.len() == 0 {
        None
    } else if names.last() == name {
        Some(names.len() - 1)
    } else {
        resolve_spec(names.drop_last(), name)
    }
}

/// The instructions a compilation step appended to the frame's chunk.
pub open spec fn code_appended(o: Frame, f: Frame) -> Seq<Op> {
    f.chunk.code@.subrange(o.chunk.code@.len() as int, f.chunk.code@.len() as int)
}

/// The constants a compilation step appended to the frame's pool.
pub open spec fn consts_appended(o: Frame, f: Frame) -> Seq<Value> {
    f.chunk.constants@.subrange(o.chunk.constants@.len() as int, f.chunk.constants@.len() as int)
}

/// How every compilation step treats its frame: names and arity unchanged,
/// code and constants only appended to, and every appended constant well
/// formed. Backpatch placeholders may still sit in the appended code.
pub open spec fn frame_grows(o: Frame, f: Frame) -> bool {
    &&& names_view(f.names@) == names_view(o.names@)
    &&& f.arity == o.arity
    &&& o.chunk.code@.len() <= f.chunk.code@.len()
    &&& f.chunk.code@.subrange(0, o.chunk.code@.len() as int) == o.chunk.code@
    &&& o.chunk.constants@.len() <= f.chunk.constants@.len()
    &&& f.chunk.constants@.subrange(0, o.chunk.constants@.len() as int) == o.chunk.constants@
    &&& forall|i: int|
        o.chunk.constants@.len() <= i < f.chunk.constants@.len() ==> wf_value(
            #[trigger] f.chunk.constants@[i],
        )
}

/// A finished compilation step: the frame grew and no placeholder is left
/// in what it appended.
pub open spec fn frame_extends(o: Frame, f: Frame) -> bool {
    &&& frame_grows(o, f)
    &&& wf_code(code_appended(o, f))
}

/// Growth steps compose.
pub proof fn lemma_grows_trans(a: Frame, b: Frame, c: Frame)
    requires
        frame_grows(a, b),
        frame_grows(b, c),
    ensures
        frame_grows(a, c),
{
    assert(c.chunk.code@.subrange(0, a.chunk.code@.len() as int) =~= a.chunk.code@);
    assert(c.chunk.constants@.subrange(0, a.chunk.constants@.len() as int) =~= a.chunk.constants@);
    let ka = a.chunk.constants@.len() as int;
    let kb = b.chunk.constants@.len() as int;
    let kc = c.chunk.constants@.len() as int;
    assert forall|i: int| ka <= i < kc implies wf_value(#[trigger] c.chunk.constants@[i]) by {
        if i < kb {
            assert(c.chunk.constants@.subrange(0, kb)[i] == c.chunk.constants@[i]);
            assert(c.chunk.constants@[i] == b.chunk.constants@[i]);
        }
    }
}

/// Extension steps compose.
pub proof fn lemma_extends_trans(a: Frame, b: Frame, c: Frame)
    requires
        frame_extends(a, b),
        frame_extends(b, c),
    ensures
        frame_extends(a, c),
{
    lemma_grows_trans(a, b, c);
    assert(c.chunk.code@.subrange(0, a.chunk.code@.len() as int) =~= a.chunk.code@);
    assert(c.chunk.constants@.subrange(0, a.chunk.constants@.len() as int) =~= a.chunk.constants@);
    let la = a.chunk.code@.len() as int;
    let lb = b.chunk.code@.len() as int;
    let lc = c.chunk.code@.len() as int;
    assert forall|i: int| 0 <= i < code_appended(a, c).len() implies !(#[trigger] code_appended(
        a,
        c,
    )[i] is Unreachable) by {
        assert(code_appended(a, c)[i] == c.chunk.code@[la + i]);
        if la + i < lb {
            assert(c.chunk.code@.subrange(0, lb)[la + i] == c.chunk.code@[la + i]);
            assert(c.chunk.code@[la + i] == b.chunk.code@[la + i]);
            assert(code_appended(a, b)[i] == b.chunk.code@[la + i]);
        } else {
            assert(code_appended(b, c)[la + i - lb] == c.chunk.code@[la + i]);
        }
    }
    let ka = a.chunk.constants@.len() as int;
    let kb = b.chunk.constants@.len() as int;
    let kc = c.chunk.constants@.len() as int;
    assert forall|i: int| ka <= i < kc implies wf_value(#[trigger] c.chunk.constants@[i]) by {
        if i < kb {
            assert(c.chunk.constants@.subrange(0, kb)[i] == c.chunk.constants@[i]);
            assert(c.chunk.constants@[i] == b.chunk.constants@[i]);
        }
    }
}

/// A sequence of expression compilations joined by single discard
/// instructions: `n` expressions give `n - 1` interleaved `Pop`s.
pub open spec fn join_pops(segs: Seq<Seq<Op>>) -> Seq<Op>
    decreases segs.len(),
{
    if segs.len() == 0 {
        Seq::empty()
    } else if segs.len() == 1 {
        segs[0]
    } else {
        segs[0] + seq![Op::Pop] + join_pops(segs.drop_first())
    }
}

/// Appending one more expression to a block appends one `Pop` and its code.
pub proof fn lemma_join_pops_push(segs: Seq<Seq<Op>>, s: Seq<Op>)
    requires
        segs.len() >= 1,
    ensures
        join_pops(segs.push(s)) == join_pops(segs) + seq![Op::Pop] + s,
    decreases segs.len(),
{
    if segs.len() == 1 {
        assert(segs.push(s).drop_first() =~= seq![s]);
        assert(join_pops(seq![s]) == s);
        assert(join_pops(segs.push(s)) == segs[0] + seq![Op::Pop] + s);
        assert(join_pops(segs) == segs[0]);
    } else {
        assert(segs.push(s).drop_first() =~= segs.drop_first().push(s));
        lemma_join_pops_push(segs.drop_first(), s);
        assert(join_pops(segs.push(s)) == segs[0] + seq![Op::Pop] + (join_pops(segs.drop_first())
            + seq![Op::Pop] + s));
        assert(segs[0] + seq![Op::Pop] + (join_pops(segs.drop_first()) + seq![Op::Pop] + s) =~= (
        segs[0] + seq![Op::Pop] + join_pops(segs.drop_first())) + seq![Op::Pop] + s);
    }
}

/// The total length of a list of code segments.
pub open spec fn seg_len_sum(segs: Seq<Seq<Op>>) -> int
    decreases segs.len(),
{
    if segs.len() == 0 {
        0
    } else {
        segs[0].len() + seg_len_sum(segs.drop_first())
    }
}

/// Law: a block of `n` expressions compiles to their code with exactly
/// `n - 1` interleaved discard instructions, whatever each expression
/// compiles to: the emitted length is the segments' lengths plus one
/// discard between each pair.
pub proof fn lemma_block_discard_count(segs: Seq<Seq<Op>>)
    requires
        segs.len() >= 1,
    ensures
        join_pops(segs).len() == seg_len_sum(segs) + segs.len() - 1,
    decreases segs.len(),
{
    if segs.len() == 1 {
        assert(seg_len_sum(segs.drop_first()) == 0);
    } else {
        lemma_block_discard_count(segs.drop_first());
        assert(join_pops(segs).len() == segs[0].len() + 1 + join_pops(segs.drop_first()).len());
    }
}

/// Code with the shape a block compilation emits: one or more nonempty
/// expression compilations with a discard between each pair.
pub open spec fn segs_shape(segs: Seq<Seq<Op>>, app: Seq<Op>) -> bool {
    &&& segs.len() >= 1
    &&& forall|i: int| 0 <= i < segs.len() ==> (#[trigger] segs[i]).len() >= 1
    &&& app == join_pops(segs)
}

/// Whether `app` is block-shaped.
pub open spec fn is_block_code(app: Seq<Op>) -> bool {
    exists|segs: Seq<Seq<Op>>| segs_shape(segs, app)
}


// --- literal parsing --------------------------------------------------------

/// The value of a digit run, most significant digit first.
pub open spec fn digits_val(s: Seq<u8>) -> int
    decreases s.len(),
{
    if s.len() == 0 {
        0
    } else {
        digits_val(s.drop_last()) * 10 + (s.last() - 48)
    }
}

/// Every byte is an ASCII digit.
pub open spec fn all_digits(s: Seq<u8>) -> bool {
    forall|i: int| 0 <= i < s.len() ==> is_digit(#[trigger] s[i])
}

/// A digit run never denotes a negative value.
pub proof fn lemma_digits_val_nonneg(s: Seq<u8>)
    requires
        all_digits(s),
    ensures
        digits_val(s) >= 0,
    decreases s.len(),
{
    if s.len() > 0 {
        assert(all_digits(s.drop_last())) by {
            assert(forall|i: int|
                0 <= i < s.len() - 1 ==> is_digit(#[trigger] s.drop_last()[i]) && s.drop_last()[i]
                    == s[i]);
        }
        lemma_digits_val_nonneg(s.drop_last());
        assert(is_digit(s.last()));
    }
}

/// What an integer literal denotes: an optional minus sign, then at least
/// one digit, all within the fixed-width signed range; anything else is
/// malformed.
pub open spec fn parse_int_spec(text: Seq<u8>) -> Option<i32> {
    let neg = text.len() > 0 && text[0] == 45;
    let digits = if neg {
        text.subrange(1, text.len() as int)
    } else {
        text
    };
    if digits.len() == 0 || !all_digits(digits) {
        None
    } else {
        let v = if neg {
            -digits_val(digits)
        } else {
            digits_val(digits)
        };
        if i32::MIN <= v <= i32::MAX {
            Some(v as i32)
        } else {
            None
        }
    }
}

/// Parse an integer literal's text exactly as `parse_int_spec` says.
pub fn parse_int(text: &Vec<u8>) -> (r: Option<i32>)
    ensures
        r == parse_int_spec(text@),
{
    let n = text.len();
    let neg = n > 0 && text[0] == 45;
    let start: usize = if neg {
        1
    } else {
        0
    };
    let ghost digits = if neg {
        text@.subrange(1, text@.len() as int)
    } else {
        text@
    };
    if n == start {
        proof {
            if neg {
                assert(text@.subrange(1, text@.len() as int).len() == 0);
            }
        }
        return None;
    }
    // Accumulate the magnitude; it stays at most 2^31 unless we overflow.
    let mut mag: u64 = 0;
    let mut over = false;
    let mut i = start;
    while i < n
        invariant
            start <= i <= n,
            n == text@.len(),
            neg == (text@.len() > 0 && text@[0] == 45),
            start == if neg { 1int } else { 0int },
            start < n,
            digits == text@.subrange(start as int, n as int),
            all_digits(text@.subrange(start as int, i as int)),
            !over ==> mag == digits_val(text@.subrange(start as int, i as int)) && mag
                <= 2147483648,
            over ==> digits_val(text@.subrange(start as int, i as int)) > 2147483648,
        decreases n - i,
    {
        let b = text[i];
        if !(48 <= b && b <= 57) {
            proof {
                assert(digits[i - start] == text@[i as int]);
            }
            return None;
        }
        let ghost pre = text@.subrange(start as int, i as int);
        let ghost cur = text@.subrange(start as int, i + 1);
        proof {
            assert(cur.drop_last() =~= pre);
            assert(cur.last() == text@[i as int]);
            assert(digits_val(cur) == digits_val(pre) * 10 + (text@[i as int] - 48));
            lemma_digits_val_nonneg(pre);
        }
        if over {
            proof {
                lemma_digits_val_nonneg(cur);
                assert(digits_val(cur) >= digits_val(pre)) by {
                    assert(digits_val(pre) * 10 >= digits_val(pre));
                }
            }
        } else if mag > 214748364 {
            over = true;
            proof {
                assert(digits_val(cur) > 2147483648) by {
                    assert(digits_val(pre) >= 214748365);
                    assert(digits_val(pre) * 10 >= 2147483650);
                }
            }
        } else {
            mag = mag * 10 + ((b - 48) as u64);
            if mag > 2147483648 {
                over = true;
            }
        }
        i = i + 1;
    }
    proof {
        assert(text@.subrange(start as int, n as int) == digits);
        assert(all_digits(digits));
    }
    if over {
        return None;
    }
    if neg {
        if mag > 2147483648 {
            return None;
        }
        if mag == 2147483648 {
            Some(i32::MIN)
        } else {
            Some(-(mag as i32))
        }
    } else {
        if mag > 2147483647 {
            return None;
        }
        Some(mag as i32)
    }
}

/// Resolve backslash escapes: `\t` and `\n` become tab and newline, a
/// backslash before any other byte passes that byte through, and a
/// trailing backslash is malformed.
pub open spec fn unescape_spec(s: Seq<u8>) -> Option<Seq<u8>>
    decreases s.len(),
{
    if s.len() == 0 {
        Some(Seq::empty())
    } else if s[0] == 92 {  // backslash
        if s.len() == 1 {
            None
        } else {
            let e: u8 = if s[1] == 116 {  // t
                9
            } else if s[1] == 110 {  // n
                10
            } else {
                s[1]
            };
            match unescape_spec(s.subrange(2, s.len() as int)) {
                Some(r) => Some(seq![e] + r),
                None => None,
            }
        }
    } else {
        match unescape_spec(s.subrange(1, s.len() as int)) {
            Some(r) => Some(seq![s[0]] + r),
            None => None,
        }
    }
}

/// One unescaped byte extends the result on the right.
proof fn lemma_unescape_step(s: Seq<u8>, i: int)
    requires
        0 <= i < s.len(),
        s[i] != 92,
    ensures
        unescape_spec(s.subrange(i, s.len() as int)) == match unescape_spec(
            s.subrange(i + 1, s.len() as int),
        ) {
            Some(r) => Some(seq![s[i]] + r),
            None => None::<Seq<u8>>,
        },
{
    let tail = s.subrange(i, s.len() as int);
    assert(tail[0] == s[i]);
    assert(tail.subrange(1, tail.len() as int) =~= s.subrange(i + 1, s.len() as int));
}

/// One escaped pair extends the result on the right.
proof fn lemma_unescape_step2(s: Seq<u8>, i: int)
    requires
        0 <= i,
        i + 1 < s.len(),
        s[i] == 92,
    ensures
        unescape_spec(s.subrange(i, s.len() as int)) == ({
            let e: u8 = if s[i + 1] == 116 {
                9
            } else if s[i + 1] == 110 {
                10
            } else {
                s[i + 1]
            };
            match unescape_spec(s.subrange(i + 2, s.len() as int)) {
                Some(r) => Some(seq![e] + r),
                None => None::<Seq<u8>>,
            }
        }),
{
    let tail = s.subrange(i, s.len() as int);
    assert(tail[0] == s[i]);
    assert(tail[1] == s[i + 1]);
    assert(tail.subrange(2, tail.len() as int) =~= s.subrange(i + 2, s.len() as int));
}

/// A lone backslash at the end is malformed.
proof fn lemma_unescape_lone(s: Seq<u8>, i: int)
    requires
        0 <= i,
        i + 1 == s.len(),
        s[i] == 92,
    ensures
        unescape_spec(s.subrange(i, s.len() as int)) is None,
{
    let tail = s.subrange(i, s.len() as int);
    assert(tail[0] == s[i]);
}

/// Unescape a quoted literal's content exactly as `unescape_spec` says.
fn unescape(s: &[u8]) -> (r: Option<Vec<u8>>)
    ensures
        match r {
            Some(v) => unescape_spec(s@) == Some(v@),
            None => unescape_spec(s@) is None,
        },
{
    let n = s.len();
    let mut out: Vec<u8> = Vec::new();
    let mut i: usize = 0;
    proof {
        assert(s@.subrange(0, n as int) =~= s@);
        assert(forall|r: Seq<u8>| Seq::<u8>::empty() + r =~= r);
    }
    while i < n
        invariant
            i <= n,
            n == s@.len(),
            unescape_spec(s@) == match unescape_spec(s@.subrange(i as int, n as int)) {
                Some(r) => Some(out@ + r),
                None => None::<Seq<u8>>,
            },
        decreases n - i,
    {
        let b = s[i];
        if b == 92 {  // backslash
            if i + 1 == n {
                proof {
                    lemma_unescape_lone(s@, i as int);
                }
                return None;
            }
            let c = s[i + 1];
            let e: u8 = if c == 116 {  // t
                9
            } else if c == 110 {  // n
                10
            } else {
                c
            };
            proof {
                lemma_unescape_step2(s@, i as int);
                assert(forall|r: Seq<u8>| out@ + (seq![e] + r) =~= (out@ + seq![e]) + r);
            }
            out.push(e);
            i = i + 2;
        } else {
            proof {
                lemma_unescape_step(s@, i as int);
                assert(forall|r: Seq<u8>| out@ + (seq![b] + r) =~= (out@ + seq![b]) + r);
            }
            out.push(b);
            i = i + 1;
        }
    }
    proof {
        assert(s@.subrange(n as int, n as int) =~= Seq::<u8>::empty());
        assert(unescape_spec(Seq::<u8>::empty()) == Some(Seq::<u8>::empty()));
        assert(out@ + Seq::<u8>::empty() =~= out@);
    }
    Some(out)
}

/// What a character literal denotes: its quotes stripped, its content
/// unescaped, and exactly one byte left, taken as an integer.
pub open spec fn char_val_spec(text: Seq<u8>) -> Option<i32> {
    if text.len() >= 2 && text[0] == 39 && text.last() == 39 {
        match unescape_spec(text.subrange(1, text.len() - 1)) {
            Some(b) => if b.len() == 1 {
                Some(b[0] as i32)
            } else {
                None
            },
            None => None,
        }
    } else {
        None
    }
}

/// What a string literal denotes: its quotes stripped and its content
/// unescaped.
pub open spec fn string_val_spec(text: Seq<u8>) -> Option<Seq<u8>> {
    if text.len() >= 2 && text[0] == 34 && text.last() == 34 {
        unescape_spec(text.subrange(1, text.len() - 1))
    } else {
        None
    }
}

// --- name resolution --------------------------------------------------------

/// Byte-for-byte equality of two name spellings.
fn bytes_eq(a: &Vec<u8>, b: &Vec<u8>) -> (r: bool)
    ensures
        r == (a@ == b@),
{
    if a.len() != b.len() {
        proof {
            assert(a@ != b@);
        }
        return false;
    }
    let n = a.len();
    let mut i: usize = 0;
    while i < n
        invariant
            i <= n,
            n == a@.len() == b@.len(),
            forall|j: int| 0 <= j < i ==> a@[j] == b@[j],
        decreases n - i,
    {
        if a[i] != b[i] {
            return false;
        }
        i = i + 1;
    }
    proof {
        assert(a@ =~= b@);
    }
    true
}

/// Search this frame's own name list, innermost (most recent) first.
fn resolve(names: &Vec<Vec<u8>>, name: &Vec<u8>) -> (r: Option<usize>)
    ensures
        match r {
            Some(i) => resolve_spec(names_view(names@), name@) == Some(i as int),
            None => resolve_spec(names_view(names@), name@) is None,
        },
{
    let mut i = names.len();
    proof {
        assert(names_view(names@).take(names@.len() as int) =~= names_view(names@));
    }
    while i > 0
        invariant
            i <= names@.len(),
            resolve_spec(names_view(names@), name@) == resolve_spec(
                names_view(names@).take(i as int),
                name@,
            ),
        decreases i,
    {
        i = i - 1;
        proof {
            let nv = names_view(names@);
            assert(nv.take(i + 1).last() == nv[i as int]);
            assert(nv.take(i + 1).drop_last() =~= nv.take(i as int));
        }
        if bytes_eq(&names[i], name) {
            return Some(i);
        }
    }
    proof {
        assert(names_view(names@).take(0) =~= Seq::<Seq<u8>>::empty());
    }
    None
}


/// A vector's view never outgrows the machine's address range.
proof fn lemma_vec_len_bounded<T>(v: &Vec<T>)
    ensures
        v@.len() <= usize::MAX,
{
    assert(v.len() == v@.len());
}


// --- what compilation yields, at the specification level ---------------------

/// A function as the compilation specification builds it: the declared
/// arity, the instruction sequence, and the constant pool, with no
/// shared-ownership handles.
#[verifier::ext_equal]
pub ghost struct GFun {
    pub arity: int,
    pub code: Seq<Op>,
    pub consts: Seq<GVal>,
}

/// A constant-pool value as the compilation specification sees it.
#[verifier::ext_equal]
pub ghost enum GVal {
    Nil,
    Bool(bool),
    Int(i32),
    Bytes(Seq<u8>),
    Fun(GFun),
    Native(crate::value::Native),
}

/// The specification-level reading of a value.
pub open spec fn gval_of(v: Value) -> GVal
    decreases v,
{
    match v {
        Value::Nil => GVal::Nil,
        Value::Bool(b) => GVal::Bool(b),
        Value::Int(i) => GVal::Int(i),
        Value::String(s) => GVal::Bytes(s@),
        Value::Function(f) => GVal::Fun(
            GFun {
                arity: f.arity as int,
                code: f.chunk.code@,
                consts: gvals_of(f.chunk.constants@),
            },
        ),
        Value::Native(n) => GVal::Native(n),
    }
}

/// The specification-level reading of a constant pool.
pub open spec fn gvals_of(s: Seq<Value>) -> Seq<GVal>
    decreases s,
{
    if s.len() == 0 {
        Seq::empty()
    } else {
        gvals_of(s.drop_last()).push(gval_of(s.last()))
    }
}

/// The specification-level reading of a compiled function.
pub open spec fn gfun_of(f: Function) -> GFun {
    GFun { arity: f.arity as int, code: f.chunk.code@, consts: gvals_of(f.chunk.constants@) }
}

/// Reading a pool commutes with extending it.
pub proof fn lemma_gvals_push(s: Seq<Value>, v: Value)
    ensures
        gvals_of(s.push(v)) == gvals_of(s).push(gval_of(v)),
{
    assert(s.push(v).drop_last() =~= s);
    assert(s.push(v).last() == v);
}

/// Reading a pool keeps its length.
pub proof fn lemma_gvals_len(s: Seq<Value>)
    ensures
        gvals_of(s).len() == s.len(),
    decreases s,
{
    if s.len() > 0 {
        lemma_gvals_len(s.drop_last());
    }
}

/// The tokens of a lexed buffer as the specification sees them.
pub open spec fn toks_view(toks: Seq<Token>) -> Seq<SpecToken> {
    toks.map_values(|t: Token| tok_view(t))
}

/// The compilation specification's scope and chunk under construction.
#[verifier::ext_equal]
pub ghost struct GFrame {
    pub names: Seq<Seq<u8>>,
    pub arity: int,
    pub code: Seq<Op>,
    pub consts: Seq<GVal>,
}

/// The specification-level reading of a compile-time frame.
pub open spec fn gframe_of(f: Frame) -> GFrame {
    GFrame {
        names: names_view(f.names@),
        arity: f.arity as int,
        code: f.chunk.code@,
        consts: gvals_of(f.chunk.constants@),
    }
}

// --- the compilation specification -------------------------------------------

/// What compiling one construct yields: the position past it with the grown
/// frame, a located error, or `Stuck`, a marker for positions that only a
/// backwards-moving sub-result could reach; it justifies the recursion and
/// never arises (the executable compiler is proved never to meet it).
#[verifier::ext_equal]
pub ghost enum CRes {
    At { pos: int, fr: GFrame },
    Fail(CompileError),
    Stuck,
}

/// What compiling a call's argument list yields: the position of the
/// closing parenthesis, the grown frame, and the argument count.
#[verifier::ext_equal]
pub ghost enum CArgs {
    At { pos: int, fr: GFrame, n: int },
    Fail(CompileError),
    Stuck,
}

/// What compiling a whole program yields.
#[verifier::ext_equal]
pub ghost enum CProg {
    Fun(GFun),
    Fail(CompileError),
    Stuck,
}

/// Append one instruction.
pub open spec fn g_emit(fr: GFrame, op: Op) -> GFrame {
    GFrame { code: fr.code.push(op), ..fr }
}

/// Add a constant to the pool and push it from its new index.
pub open spec fn g_const(fr: GFrame, v: GVal) -> GFrame {
    GFrame {
        code: fr.code.push(Op::Constant(fr.consts.len() as usize)),
        consts: fr.consts.push(v),
        ..fr
    }
}

/// The located error for a token that cannot stand where it does.
pub open spec fn g_err(kind: ErrorKind, t: SpecToken) -> CompileError {
    CompileError { kind, line: t.line as usize, column: t.col as usize }
}

/// The located error for running out of tokens.
pub open spec fn g_eof_err(toks: Seq<SpecToken>) -> CompileError {
    if toks.len() > 0 {
        CompileError {
            kind: ErrorKind::UnexpectedEof,
            line: toks.last().line as usize,
            column: toks.last().col as usize,
        }
    } else {
        CompileError { kind: ErrorKind::UnexpectedEof, line: 1, column: 0 }
    }
}

/// An integer literal: its parsed value from the pool, or malformed.
pub open spec fn c_int(toks: Seq<SpecToken>, pos: int, fr: GFrame) -> CRes {
    match parse_int_spec(toks[pos].text) {
        Some(v) => CRes::At { pos: pos + 1, fr: g_const(fr, GVal::Int(v)) },
        None => CRes::Fail(g_err(ErrorKind::MalformedInt, toks[pos])),
    }
}

/// A character literal: its single unescaped byte as an integer constant.
pub open spec fn c_char(toks: Seq<SpecToken>, pos: int, fr: GFrame) -> CRes {
    match char_val_spec(toks[pos].text) {
        Some(v) => CRes::At { pos: pos + 1, fr: g_const(fr, GVal::Int(v)) },
        None => CRes::Fail(g_err(ErrorKind::MalformedChar, toks[pos])),
    }
}

/// A string literal: its unescaped bytes as a string constant.
pub open spec fn c_string(toks: Seq<SpecToken>, pos: int, fr: GFrame) -> CRes {
    match string_val_spec(toks[pos].text) {
        Some(b) => CRes::At { pos: pos + 1, fr: g_const(fr, GVal::Bytes(b)) },
        None => CRes::Fail(g_err(ErrorKind::MalformedString, toks[pos])),
    }
}

/// An identifier: the slot it resolves to in this frame's own name list,
/// or a located unresolved-identifier error. No enclosing frame is ever
/// consulted: there are no closures, at any nesting depth.
pub open spec fn c_var(toks: Seq<SpecToken>, pos: int, fr: GFrame) -> CRes {
    match resolve_spec(fr.names, toks[pos].text) {
        Some(i) => CRes::At { pos: pos + 1, fr: g_emit(fr, Op::Var(i as usize)) },
        None => CRes::Fail(g_err(ErrorKind::UnresolvedIdentifier, toks[pos])),
    }
}

/// One expression, dispatched on its first token.
pub open spec fn c_expr(toks: Seq<SpecToken>, pos: int, fr: GFrame) -> CRes
    decreases toks.len() - pos, 2int,
{
    if pos < 0 || pos >= toks.len() {
        CRes::Fail(g_eof_err(toks))
    } else {
        match toks[pos].kind {
            TokenKind::Nil => CRes::At { pos: pos + 1, fr: g_emit(fr, Op::Nil) },
            TokenKind::True => CRes::At { pos: pos + 1, fr: g_emit(fr, Op::True) },
            TokenKind::False => CRes::At { pos: pos + 1, fr: g_emit(fr, Op::False) },
            TokenKind::Int => c_int(toks, pos, fr),
            TokenKind::Char => c_char(toks, pos, fr),
            TokenKind::Str => c_string(toks, pos, fr),
            TokenKind::Ident => c_var(toks, pos, fr),
            TokenKind::If => c_if(toks, pos + 1, fr),
            TokenKind::Let => c_let(toks, pos + 1, fr),
            TokenKind::Pipe => c_fn(toks, pos, fr),
            TokenKind::LParen => c_call(toks, pos, fr),
            TokenKind::RParen => CRes::Fail(g_err(ErrorKind::UnexpectedToken, toks[pos])),
        }
    }
}

/// A block: one expression, then as long as the next token sits at the
/// block's column, a discard and another expression.
pub open spec fn c_block(toks: Seq<SpecToken>, pos: int, fr: GFrame) -> CRes
    decreases toks.len() - pos, 4int,
{
    if pos < 0 || pos >= toks.len() {
        CRes::Fail(g_eof_err(toks))
    } else {
        let col = toks[pos].col;
        match c_expr(toks, pos, fr) {
            CRes::At { pos: p2, fr: f2 } => {
                if pos < p2 <= toks.len() {
                    c_block_more(toks, p2, col, f2)
                } else {
                    CRes::Stuck
                }
            },
            r => r,
        }
    }
}

/// The rest of a block after its first expression.
pub open spec fn c_block_more(toks: Seq<SpecToken>, pos: int, col: int, fr: GFrame) -> CRes
    decreases toks.len() - pos, 3int,
{
    if pos < 0 {
        CRes::Stuck
    } else if pos >= toks.len() || toks[pos].col != col {
        CRes::At { pos, fr }
    } else {
        match c_expr(toks, pos, g_emit(fr, Op::Pop)) {
            CRes::At { pos: p2, fr: f2 } => {
                if pos < p2 <= toks.len() {
                    c_block_more(toks, p2, col, f2)
                } else {
                    CRes::Stuck
                }
            },
            r => r,
        }
    }
}

/// An `if` form, from just past the keyword: test block, placeholder and
/// discard, consequent block, placeholder, backpatch of the conditional
/// jump, discard, alternative block, backpatch of the unconditional jump.
pub open spec fn c_if(toks: Seq<SpecToken>, pos: int, fr: GFrame) -> CRes
    decreases toks.len() - pos, 5int,
{
    if pos < 0 || pos > toks.len() {
        CRes::Stuck
    } else {
        match c_block(toks, pos, fr) {
            CRes::At { pos: p1, fr: f1 } => {
                if !(pos < p1 <= toks.len()) {
                    CRes::Stuck
                } else {
                    let j1 = f1.code.len() as int;
                    let f2 = g_emit(g_emit(f1, Op::Unreachable), Op::Pop);
                    match c_block(toks, p1, f2) {
                        CRes::At { pos: p2, fr: f3 } => {
                            if !(p1 < p2 <= toks.len()) {
                                CRes::Stuck
                            } else {
                                let j2 = f3.code.len() as int;
                                let f4 = GFrame {
                                    code: f3.code.push(Op::Unreachable).update(
                                        j1,
                                        Op::JumpIfFalse((j2 + 1 - j1) as usize),
                                    ).push(Op::Pop),
                                    ..f3
                                };
                                match c_block(toks, p2, f4) {
                                    CRes::At { pos: p3, fr: f5 } => {
                                        if !(p2 < p3 <= toks.len()) {
                                            CRes::Stuck
                                        } else {
                                            let end = f5.code.len() as int;
                                            CRes::At {
                                                pos: p3,
                                                fr: GFrame {
                                                    code: f5.code.update(
                                                        j2,
                                                        Op::Jump((end - j2) as usize),
                                                    ),
                                                    ..f5
                                                },
                                            }
                                        }
                                    },
                                    r => r,
                                }
                            }
                        },
                        r => r,
                    }
                }
            },
            r => r,
        }
    }
}

/// A `let` form, from just past the keyword: the name is registered in this
/// frame before either block is compiled, the value block runs first, then
/// the body block, then the combine instruction, and the name goes back out
/// of scope.
pub open spec fn c_let(toks: Seq<SpecToken>, pos: int, fr: GFrame) -> CRes
    decreases toks.len() - pos, 5int,
{
    if pos < 0 || pos > toks.len() {
        CRes::Stuck
    } else if pos >= toks.len() {
        CRes::Fail(g_eof_err(toks))
    } else if toks[pos].kind != TokenKind::Ident {
        CRes::Fail(g_err(ErrorKind::UnexpectedToken, toks[pos]))
    } else {
        let f1 = GFrame { names: fr.names.push(toks[pos].text), ..fr };
        match c_block(toks, pos + 1, f1) {
            CRes::At { pos: p1, fr: f2 } => {
                if !(pos < p1 <= toks.len()) {
                    CRes::Stuck
                } else {
                    match c_block(toks, p1, f2) {
                        CRes::At { pos: p2, fr: f3 } => {
                            if !(p1 < p2 <= toks.len()) {
                                CRes::Stuck
                            } else {
                                CRes::At {
                                    pos: p2,
                                    fr: GFrame {
                                        names: f3.names.drop_last(),
                                        code: f3.code.push(Op::Squash),
                                        ..f3
                                    },
                                }
                            }
                        },
                        r => r,
                    }
                }
            },
            r => r,
        }
    }
}

/// Where the parameter run starting at `p` ends: the first position whose
/// token is not an identifier.
pub open spec fn g_params_end(toks: Seq<SpecToken>, p: int) -> int
    decreases toks.len() - p,
{
    if 0 <= p < toks.len() && toks[p].kind == TokenKind::Ident {
        g_params_end(toks, p + 1)
    } else {
        p
    }
}

/// A function literal, from its opening pipe: a fresh frame holding the
/// parameter names alone (nothing is inherited from any enclosing scope),
/// the body block compiled inside it, a return instruction, and the
/// finished function pushed as a constant of the enclosing frame.
pub open spec fn c_fn(toks: Seq<SpecToken>, pos: int, fr: GFrame) -> CRes
    decreases toks.len() - pos, 1int,
{
    if !(0 <= pos < toks.len()) {
        CRes::Stuck
    } else {
        let e = g_params_end(toks, pos + 1);
        if !(pos + 1 <= e <= toks.len()) {
            CRes::Stuck
        } else if e >= toks.len() {
            CRes::Fail(g_eof_err(toks))
        } else if toks[e].kind != TokenKind::Pipe {
            CRes::Fail(g_err(ErrorKind::UnexpectedToken, toks[e]))
        } else {
            let child = GFrame {
                names: toks.subrange(pos + 1, e).map_values(|t: SpecToken| t.text),
                arity: e - (pos + 1),
                code: Seq::empty(),
                consts: Seq::empty(),
            };
            match c_block(toks, e + 1, child) {
                CRes::At { pos: p2, fr: cf } => {
                    if !(pos < p2 <= toks.len()) {
                        CRes::Stuck
                    } else {
                        let gf = GFun {
                            arity: e - (pos + 1),
                            code: cf.code.push(Op::Return),
                            consts: cf.consts,
                        };
                        CRes::At { pos: p2, fr: g_const(fr, GVal::Fun(gf)) }
                    }
                },
                r => r,
            }
        }
    }
}

/// A call, from its opening parenthesis: the callee expression, then the
/// arguments up to the closing parenthesis, then one call instruction
/// carrying the argument count.
pub open spec fn c_call(toks: Seq<SpecToken>, pos: int, fr: GFrame) -> CRes
    decreases toks.len() - pos, 1int,
{
    if !(0 <= pos < toks.len()) {
        CRes::Stuck
    } else {
        match c_expr(toks, pos + 1, fr) {
            CRes::At { pos: p1, fr: f1 } => {
                if !(pos + 1 < p1 <= toks.len()) {
                    CRes::Stuck
                } else {
                    match c_args(toks, p1, f1, 0) {
                        CArgs::At { pos: pr, fr: f2, n } => {
                            if !(p1 <= pr < toks.len()) {
                                CRes::Stuck
                            } else {
                                CRes::At { pos: pr + 1, fr: g_emit(f2, Op::Call(n as usize)) }
                            }
                        },
                        CArgs::Fail(e) => CRes::Fail(e),
                        CArgs::Stuck => CRes::Stuck,
                    }
                }
            },
            r => r,
        }
    }
}

/// A call's argument list: expressions until the closing parenthesis.
pub open spec fn c_args(toks: Seq<SpecToken>, pos: int, fr: GFrame, n: int) -> CArgs
    decreases toks.len() - pos, 3int,
{
    if pos < 0 {
        CArgs::Stuck
    } else if pos >= toks.len() {
        CArgs::Fail(g_eof_err(toks))
    } else if toks[pos].kind == TokenKind::RParen {
        CArgs::At { pos, fr, n }
    } else {
        match c_expr(toks, pos, fr) {
            CRes::At { pos: p2, fr: f2 } => {
                if pos < p2 <= toks.len() {
                    c_args(toks, p2, f2, n + 1)
                } else {
                    CArgs::Stuck
                }
            },
            CRes::Fail(e) => CArgs::Fail(e),
            CRes::Stuck => CArgs::Stuck,
        }
    }
}

/// The built-ins' names, in registry order: the outermost frame's scope.
pub open spec fn g_registry_names() -> Seq<Seq<u8>> {
    spec_registry().map_values(|p: (Seq<u8>, crate::value::Native)| p.0)
}

/// What compiling a whole token stream yields: the top-level block compiled
/// in the single outermost frame (the built-ins' names pre-registered),
/// trailing input rejected, and the chunk closed with a return instruction.
pub open spec fn compile_spec(toks: Seq<SpecToken>) -> CProg {
    let fr0 = GFrame {
        names: g_registry_names(),
        arity: spec_registry().len() as int,
        code: Seq::empty(),
        consts: Seq::empty(),
    };
    match c_block(toks, 0, fr0) {
        CRes::At { pos, fr } => {
            if pos == toks.len() {
                CProg::Fun(GFun { arity: fr.arity, code: fr.code.push(Op::Return), consts: fr.consts })
            } else if 0 <= pos < toks.len() {
                CProg::Fail(g_err(ErrorKind::TrailingInput, toks[pos]))
            } else {
                CProg::Stuck
            }
        },
        CRes::Fail(e) => CProg::Fail(e),
        CRes::Stuck => CProg::Stuck,
    }
}

/// Law: an identifier absent from the current frame's own name list fails
/// to compile with a located unresolved-identifier error, whatever any
/// enclosing scope binds. `c_var` hands `resolve_spec` this frame's names
/// alone, and `c_fn` starts every nested frame from its parameters alone,
/// so resolution cannot cross a frame boundary at any nesting depth.
pub proof fn lemma_no_closures(toks: Seq<SpecToken>, pos: int, fr: GFrame)
    requires
        0 <= pos < toks.len(),
        toks[pos].kind == TokenKind::Ident,
        resolve_spec(fr.names, toks[pos].text) is None,
    ensures
        c_expr(toks, pos, fr) == CRes::Fail(g_err(ErrorKind::UnresolvedIdentifier, toks[pos])),
{
}

/// The executable compiler agrees with the compilation specification: the
/// same next position and frame on success, the same located error on
/// failure.
pub open spec fn matches_cres(res: CRes, r: Result<usize, CompileError>, f_final: Frame) -> bool {
    match r {
        Result::Ok(p2) => res == (CRes::At { pos: p2 as int, fr: gframe_of(f_final) }),
        Result::Err(e) => res == CRes::Fail(e),
    }
}

/// Emitting one instruction reads back as `g_emit`.
proof fn lemma_gframe_emit(o: Frame, f: Frame, op: Op)
    requires
        names_view(f.names@) == names_view(o.names@),
        f.arity == o.arity,
        f.chunk.code@ == o.chunk.code@ + seq![op],
        f.chunk.constants@ == o.chunk.constants@,
    ensures
        gframe_of(f) == g_emit(gframe_of(o), op),
{
    assert(gframe_of(f).code =~= g_emit(gframe_of(o), op).code);
    assert(gframe_of(f) =~~= g_emit(gframe_of(o), op));
}

/// Adding and pushing one constant reads back as `g_const`.
proof fn lemma_gframe_const(o: Frame, f: Frame, v: Value)
    requires
        names_view(f.names@) == names_view(o.names@),
        f.arity == o.arity,
        f.chunk.code@ == o.chunk.code@ + seq![Op::Constant(o.chunk.constants@.len() as usize)],
        f.chunk.constants@ == o.chunk.constants@.push(v),
    ensures
        gframe_of(f) == g_const(gframe_of(o), gval_of(v)),
{
    lemma_gvals_len(o.chunk.constants@);
    lemma_gvals_push(o.chunk.constants@, v);
    assert(gframe_of(f).code =~= g_const(gframe_of(o), gval_of(v)).code);
    assert(gframe_of(f) =~~= g_const(gframe_of(o), gval_of(v)));
}

// --- emitting ---------------------------------------------------------------

/// The located error for running out of tokens.
fn eof_error(toks: &Vec<Token>) -> (e: CompileError)
    ensures
        e.kind == ErrorKind::UnexpectedEof,
        e == g_eof_err(toks_view(toks@)),
{
    if toks.len() > 0 {
        proof {
            assert(toks_view(toks@).last() == tok_view(toks@.last()));
        }
        toks[toks.len() - 1].location.error(ErrorKind::UnexpectedEof)
    } else {
        CompileError { kind: ErrorKind::UnexpectedEof, line: 1, column: 0 }
    }
}

/// Append one (non-placeholder) instruction to the frame's chunk.
fn emit_op(fr: &mut Frame, op: Op)
    requires
        !(op is Unreachable),
    ensures
        frame_extends(*old(fr), *final(fr)),
        final(fr).chunk.code@ == old(fr).chunk.code@ + seq![op],
        code_appended(*old(fr), *final(fr)) == seq![op],
        final(fr).chunk.constants@ == old(fr).chunk.constants@,
        final(fr).names@ == old(fr).names@,
        final(fr).arity == old(fr).arity,
{
    fr.chunk.emit(op);
    proof {
        assert(fr.chunk.code@ =~= old(fr).chunk.code@ + seq![op]);
        assert(fr.chunk.code@.subrange(0, old(fr).chunk.code@.len() as int) =~= old(
            fr,
        ).chunk.code@);
        assert(code_appended(*old(fr), *fr) =~= seq![op]);
        assert(fr.chunk.constants@.subrange(0, old(fr).chunk.constants@.len() as int) =~= old(
            fr,
        ).chunk.constants@);
    }
}

/// Add a well-formed constant to the pool and push it: one `Constant`
/// instruction whose operand is the new pool index.
fn emit_const(fr: &mut Frame, v: Value)
    requires
        wf_value(v),
    ensures
        frame_extends(*old(fr), *final(fr)),
        final(fr).chunk.code@ == old(fr).chunk.code@ + seq![
            Op::Constant(old(fr).chunk.constants@.len() as usize),
        ],
        code_appended(*old(fr), *final(fr)) == seq![
            Op::Constant(old(fr).chunk.constants@.len() as usize),
        ],
        final(fr).chunk.constants@ == old(fr).chunk.constants@.push(v),
        consts_appended(*old(fr), *final(fr)) == seq![v],
        final(fr).names@ == old(fr).names@,
        final(fr).arity == old(fr).arity,
{
    let ci = fr.chunk.add_constant(v);
    fr.chunk.emit(Op::Constant(ci));
    proof {
        assert(fr.chunk.code@ =~= old(fr).chunk.code@ + seq![Op::Constant(ci)]);
        assert(fr.chunk.code@.subrange(0, old(fr).chunk.code@.len() as int) =~= old(
            fr,
        ).chunk.code@);
        assert(code_appended(*old(fr), *fr) =~= seq![Op::Constant(ci)]);
        assert(fr.chunk.constants@.subrange(0, old(fr).chunk.constants@.len() as int) =~= old(
            fr,
        ).chunk.constants@);
        assert(consts_appended(*old(fr), *fr) =~= seq![v]);
    }
}

// --- the shapes each construct emits ----------------------------------------

/// The code an `if` form appends: the test block, a conditional jump over
/// the consequent (landing on the discard before the alternative), a
/// discard of the test value, the consequent, an unconditional jump over
/// the alternative, a discard, and the alternative. Jump operands are the
/// forward distance from the jump's own index.
pub open spec fn if_shape_parts(t: Seq<Op>, a: Seq<Op>, b: Seq<Op>, app: Seq<Op>) -> bool {
    &&& is_block_code(t)
    &&& is_block_code(a)
    &&& is_block_code(b)
    &&& t.len() >= 1
    &&& a.len() >= 1
    &&& b.len() >= 1
    &&& app =~= t + seq![Op::JumpIfFalse((a.len() + 3) as usize), Op::Pop] + a + seq![
        Op::Jump((b.len() + 2) as usize),
        Op::Pop,
    ] + b
}

/// Whether `app` has the shape of a compiled `if`.
pub open spec fn if_shape(app: Seq<Op>) -> bool {
    exists|t: Seq<Op>, a: Seq<Op>, b: Seq<Op>| if_shape_parts(t, a, b, app)
}

/// The code a `let` form appends: the value block, the body block, then one
/// combine instruction that drops the bound value and keeps the body's
/// result.
pub open spec fn let_shape_parts(v: Seq<Op>, b: Seq<Op>, app: Seq<Op>) -> bool {
    &&& is_block_code(v)
    &&& is_block_code(b)
    &&& v.len() >= 1
    &&& b.len() >= 1
    &&& app =~= v + b + seq![Op::Squash]
}

/// Whether `app` has the shape of a compiled `let`.
pub open spec fn let_shape(app: Seq<Op>) -> bool {
    exists|v: Seq<Op>, b: Seq<Op>| let_shape_parts(v, b, app)
}

/// The code a call appends: the callee, the arguments in order, then one
/// call instruction carrying the argument count.
pub open spec fn call_shape_parts(c: Seq<Op>, a: Seq<Op>, n: int, app: Seq<Op>) -> bool {
    &&& c.len() >= 1
    &&& 0 <= n <= a.len()
    &&& app =~= c + a + seq![Op::Call(n as usize)]
}

/// Whether `app` has the shape of a compiled call.
pub open spec fn call_shape(app: Seq<Op>) -> bool {
    exists|c: Seq<Op>, a: Seq<Op>, n: int| call_shape_parts(c, a, n, app)
}

/// The value a function literal adds to the constant pool: a function whose
/// chunk is its body block followed by one return instruction.
pub open spec fn fn_const_shape(v: Value) -> bool {
    v matches Value::Function(g) && g.chunk.code@.len() >= 2 && g.chunk.code@.last() == Op::Return
        && is_block_code(g.chunk.code@.drop_last()) && wf_code(g.chunk.code@)
}

// --- the compiler -----------------------------------------------------------

/// Compile one expression starting at `pos`, appending its code to the
/// frame's chunk. On success the new position is past the expression and at
/// least one instruction was appended.
fn compile_expr(toks: &Vec<Token>, pos: usize, fr: &mut Frame) -> (r: Result<usize, CompileError>)
    requires
        pos <= toks@.len(),
    ensures
        r matches Ok(p2) ==> pos < p2 <= toks@.len() && frame_extends(*old(fr), *final(fr))
            && code_appended(*old(fr), *final(fr)).len() >= 1,
        pos == toks@.len() ==> (r matches Err(e) && e.kind == ErrorKind::UnexpectedEof),
        pos < toks@.len() && toks@[pos as int].kind == TokenKind::RParen ==> (r matches Err(e)
            && e.kind == ErrorKind::UnexpectedToken),
        matches_cres(c_expr(toks_view(toks@), pos as int, gframe_of(*old(fr))), r, *final(fr)),
    decreases toks@.len() - pos, 2int,
{
    if pos >= toks.len() {
        return Err(eof_error(toks));
    }
    proof {
        assert(toks_view(toks@)[pos as int] == tok_view(toks@[pos as int]));
    }
    match toks[pos].kind {
        TokenKind::Nil => {
            let ghost f0 = *fr;
            emit_op(fr, Op::Nil);
            proof {
                lemma_gframe_emit(f0, *fr, Op::Nil);
            }
            Ok(pos + 1)
        },
        TokenKind::True => {
            let ghost f0 = *fr;
            emit_op(fr, Op::True);
            proof {
                lemma_gframe_emit(f0, *fr, Op::True);
            }
            Ok(pos + 1)
        },
        TokenKind::False => {
            let ghost f0 = *fr;
            emit_op(fr, Op::False);
            proof {
                lemma_gframe_emit(f0, *fr, Op::False);
            }
            Ok(pos + 1)
        },
        TokenKind::Int => compile_int(toks, pos, fr),
        TokenKind::Char => compile_char(toks, pos, fr),
        TokenKind::Str => compile_string(toks, pos, fr),
        TokenKind::Ident => compile_var(toks, pos, fr),
        TokenKind::If => compile_if(toks, pos + 1, fr),
        TokenKind::Let => compile_let(toks, pos + 1, fr),
        TokenKind::Pipe => compile_fn(toks, pos, fr),
        TokenKind::LParen => compile_call(toks, pos, fr),
        TokenKind::RParen => Err(toks[pos].unexpected()),
    }
}

/// Compile an integer literal: push its value from the constant pool.
/// Success and failure follow `parse_int_spec` exactly.
fn compile_int(toks: &Vec<Token>, pos: usize, fr: &mut Frame) -> (r: Result<usize, CompileError>)
    requires
        pos < toks@.len(),
    ensures
        r matches Ok(p2) ==> {
            &&& p2 == pos + 1
            &&& frame_extends(*old(fr), *final(fr))
            &&& parse_int_spec(toks@[pos as int].text@) matches Some(v) && consts_appended(
                *old(fr),
                *final(fr),
            ) == seq![Value::Int(v)]
            &&& code_appended(*old(fr), *final(fr)) == seq![
                Op::Constant(old(fr).chunk.constants@.len() as usize),
            ]
        },
        r matches Err(e) ==> parse_int_spec(toks@[pos as int].text@) is None && e == (CompileError {
            kind: ErrorKind::MalformedInt,
            line: toks@[pos as int].location.line,
            column: toks@[pos as int].location.column,
        }),
        matches_cres(c_int(toks_view(toks@), pos as int, gframe_of(*old(fr))), r, *final(fr)),
{
    proof {
        lemma_vec_len_bounded(toks);
        assert(toks_view(toks@)[pos as int] == tok_view(toks@[pos as int]));
    }
    match parse_int(&toks[pos].text) {
        None => Err(toks[pos].location.error(ErrorKind::MalformedInt)),
        Some(v) => {
            let ghost f0 = *fr;
            emit_const(fr, Value::Int(v));
            proof {
                lemma_gframe_const(f0, *fr, Value::Int(v));
            }
            Ok(pos + 1)
        },
    }
}

/// Compile a character literal: strip its quotes, unescape, and require a
/// single byte, pushed as an integer constant. Success and failure follow
/// `char_val_spec` exactly.
fn compile_char(toks: &Vec<Token>, pos: usize, fr: &mut Frame) -> (r: Result<usize, CompileError>)
    requires
        pos < toks@.len(),
    ensures
        r matches Ok(p2) ==> {
            &&& p2 == pos + 1
            &&& frame_extends(*old(fr), *final(fr))
            &&& char_val_spec(toks@[pos as int].text@) matches Some(v) && consts_appended(
                *old(fr),
                *final(fr),
            ) == seq![Value::Int(v)]
            &&& code_appended(*old(fr), *final(fr)) == seq![
                Op::Constant(old(fr).chunk.constants@.len() as usize),
            ]
        },
        r matches Err(e) ==> char_val_spec(toks@[pos as int].text@) is None && e == (CompileError {
            kind: ErrorKind::MalformedChar,
            line: toks@[pos as int].location.line,
            column: toks@[pos as int].location.column,
        }),
        matches_cres(c_char(toks_view(toks@), pos as int, gframe_of(*old(fr))), r, *final(fr)),
{
    proof {
        lemma_vec_len_bounded(toks);
        assert(toks_view(toks@)[pos as int] == tok_view(toks@[pos as int]));
    }
    let text = &toks[pos].text;
    let n = text.len();
    // a character literal is wrapped in single quotes
    if n < 2 || text[0] != 39 || text[n - 1] != 39 {
        return Err(toks[pos].location.error(ErrorKind::MalformedChar));
    }
    let inner = &text.as_slice()[1..n - 1];
    proof {
        assert(inner@ =~= text@.subrange(1, text@.len() - 1));
    }
    match unescape(inner) {
        None => Err(toks[pos].location.error(ErrorKind::MalformedChar)),
        Some(b) => {
            if b.len() == 1 {
                let ghost f0 = *fr;
                emit_const(fr, Value::Int(b[0] as i32));
                proof {
                    lemma_gframe_const(f0, *fr, Value::Int(b@[0] as i32));
                }
                Ok(pos + 1)
            } else {
                Err(toks[pos].location.error(ErrorKind::MalformedChar))
            }
        },
    }
}

/// Compile a string literal: strip its quotes, unescape, and push the bytes
/// as a shared string constant. Success and failure follow
/// `string_val_spec` exactly.
fn compile_string(toks: &Vec<Token>, pos: usize, fr: &mut Frame) -> (r: Result<
    usize,
    CompileError,
>)
    requires
        pos < toks@.len(),
    ensures
        r matches Ok(p2) ==> {
            &&& p2 == pos + 1
            &&& frame_extends(*old(fr), *final(fr))
            &&& string_val_spec(toks@[pos as int].text@) matches Some(sv) && consts_appended(
                *old(fr),
                *final(fr),
            ).len() == 1 && (consts_appended(*old(fr), *final(fr))[0] matches Value::String(bs)
                && bs@ == sv)
            &&& code_appended(*old(fr), *final(fr)) == seq![
                Op::Constant(old(fr).chunk.constants@.len() as usize),
            ]
        },
        r matches Err(e) ==> string_val_spec(toks@[pos as int].text@) is None && e == (
        CompileError {
            kind: ErrorKind::MalformedString,
            line: toks@[pos as int].location.line,
            column: toks@[pos as int].location.column,
        }),
        matches_cres(c_string(toks_view(toks@), pos as int, gframe_of(*old(fr))), r, *final(fr)),
{
    proof {
        lemma_vec_len_bounded(toks);
        assert(toks_view(toks@)[pos as int] == tok_view(toks@[pos as int]));
    }
    let text = &toks[pos].text;
    let n = text.len();
    // a string literal is wrapped in double quotes
    if n < 2 || text[0] != 34 || text[n - 1] != 34 {
        return Err(toks[pos].location.error(ErrorKind::MalformedString));
    }
    let inner = &text.as_slice()[1..n - 1];
    proof {
        assert(inner@ =~= text@.subrange(1, text@.len() - 1));
    }
    match unescape(inner) {
        None => Err(toks[pos].location.error(ErrorKind::MalformedString)),
        Some(b) => {
            let ghost f0 = *fr;
            let ghost bs = b@;
            emit_const(fr, Value::String(std::rc::Rc::new(b)));
            proof {
                assert(fr.chunk.constants@.last() matches Value::String(s) && s@ == bs);
                lemma_gframe_const(f0, *fr, fr.chunk.constants@.last());
                assert(gval_of(fr.chunk.constants@.last()) == GVal::Bytes(bs));
            }
            Ok(pos + 1)
        },
    }
}

/// Compile an identifier: resolve it against the current frame's own name
/// list alone and push the value at the resolved slot. An identifier absent
/// from this frame's list fails here, whatever any enclosing frame holds:
/// resolution never crosses a frame boundary.
fn compile_var(toks: &Vec<Token>, pos: usize, fr: &mut Frame) -> (r: Result<usize, CompileError>)
    requires
        pos < toks@.len(),
    ensures
        r matches Ok(p2) ==> {
            &&& p2 == pos + 1
            &&& frame_extends(*old(fr), *final(fr))
            &&& final(fr).chunk.constants@ == old(fr).chunk.constants@
            &&& exists|i: usize|
                resolve_spec(names_view(old(fr).names@), toks@[pos as int].text@) == Some(i as int)
                    && code_appended(*old(fr), *final(fr)) == seq![Op::Var(i)]
        },
        r matches Err(e) ==> resolve_spec(names_view(old(fr).names@), toks@[pos as int].text@)
            is None && e == (CompileError {
            kind: ErrorKind::UnresolvedIdentifier,
            line: toks@[pos as int].location.line,
            column: toks@[pos as int].location.column,
        }),
        matches_cres(c_var(toks_view(toks@), pos as int, gframe_of(*old(fr))), r, *final(fr)),
{
    proof {
        lemma_vec_len_bounded(toks);
        assert(toks_view(toks@)[pos as int] == tok_view(toks@[pos as int]));
    }
    match resolve(&fr.names, &toks[pos].text) {
        Some(i) => {
            let ghost f0 = *fr;
            emit_op(fr, Op::Var(i));
            proof {
                lemma_gframe_emit(f0, *fr, Op::Var(i));
            }
            Ok(pos + 1)
        },
        None => Err(toks[pos].location.error(ErrorKind::UnresolvedIdentifier)),
    }
}

/// Compile a block: one or more expressions at one column, a discard
/// emitted between each pair. The column of the block's first token fixes
/// the block's column; the block ends at end of input or at the first
/// token whose column differs.
fn compile_block(toks: &Vec<Token>, pos: usize, fr: &mut Frame) -> (r: Result<usize, CompileError>)
    requires
        pos <= toks@.len(),
    ensures
        r matches Ok(p2) ==> {
            &&& pos < p2 <= toks@.len()
            &&& frame_extends(*old(fr), *final(fr))
            &&& is_block_code(code_appended(*old(fr), *final(fr)))
            &&& code_appended(*old(fr), *final(fr)).len() >= 1
            &&& (p2 == toks@.len() || toks@[p2 as int].location.column != toks@[pos as int].location.column)
        },
        matches_cres(c_block(toks_view(toks@), pos as int, gframe_of(*old(fr))), r, *final(fr)),
    decreases toks@.len() - pos, 3int,
{
    if pos >= toks.len() {
        return Err(eof_error(toks));
    }
    let col = toks[pos].location.column;
    proof {
        assert(toks_view(toks@)[pos as int] == tok_view(toks@[pos as int]));
    }
    let mut p = match compile_expr(toks, pos, fr) {
        Ok(x) => x,
        Err(e) => return Err(e),
    };
    let ghost mut segs: Seq<Seq<Op>> = seq![code_appended(*old(fr), *fr)];
    proof {
        assert(join_pops(segs) == segs[0]);
        assert(segs_shape(segs, code_appended(*old(fr), *fr)));
        assert(c_block(toks_view(toks@), pos as int, gframe_of(*old(fr))) == c_block_more(
            toks_view(toks@),
            p as int,
            col as int,
            gframe_of(*fr),
        ));
    }
    loop
        invariant
            pos < p <= toks@.len(),
            toks@[pos as int].location.column == col,
            frame_extends(*old(fr), *fr),
            segs_shape(segs, code_appended(*old(fr), *fr)),
            c_block(toks_view(toks@), pos as int, gframe_of(*old(fr))) == c_block_more(
                toks_view(toks@),
                p as int,
                col as int,
                gframe_of(*fr),
            ),
        ensures
            pos < p <= toks@.len(),
            frame_extends(*old(fr), *fr),
            segs_shape(segs, code_appended(*old(fr), *fr)),
            p == toks@.len() || toks@[p as int].location.column != col,
            c_block(toks_view(toks@), pos as int, gframe_of(*old(fr))) == c_block_more(
                toks_view(toks@),
                p as int,
                col as int,
                gframe_of(*fr),
            ),
        decreases toks@.len() - p,
    {
        if p >= toks.len() {
            break;
        }
        proof {
            assert(toks_view(toks@)[p as int] == tok_view(toks@[p as int]));
        }
        if toks[p].location.column != col {
            break;
        }
        let ghost fr0 = *old(fr);
        let ghost fr1 = *fr;
        emit_op(fr, Op::Pop);
        let ghost fr2 = *fr;
        proof {
            assert(fr2.chunk.code@ =~= fr1.chunk.code@ + seq![Op::Pop]);
            lemma_gframe_emit(fr1, fr2, Op::Pop);
        }
        let p2 = match compile_expr(toks, p, fr) {
            Ok(x) => x,
            Err(e) => return Err(e),
        };
        proof {
            let seg = code_appended(fr2, *fr);
            lemma_extends_trans(fr1, fr2, *fr);
            lemma_extends_trans(fr0, fr1, *fr);
            lemma_join_pops_push(segs, seg);
            assert(fr.chunk.code@ =~= fr2.chunk.code@ + seg);
            assert(fr1.chunk.code@ =~= fr0.chunk.code@ + join_pops(segs));
            assert(code_appended(fr0, *fr) =~= join_pops(segs) + seq![Op::Pop] + seg);
            segs = segs.push(seg);
            assert(segs_shape(segs, code_appended(fr0, *fr)));
        }
        p = p2;
    }
    proof {
        assert(is_block_code(code_appended(*old(fr), *fr)));
        assert(code_appended(*old(fr), *fr).len() >= 1) by {
            assert(code_appended(*old(fr), *fr) == join_pops(segs));
            if segs.len() == 1 {
                assert(join_pops(segs) == segs[0]);
            }
        }
        if p < toks.len() {
            assert(toks_view(toks@)[p as int] == tok_view(toks@[p as int]));
        }
        assert(c_block_more(toks_view(toks@), p as int, col as int, gframe_of(*fr))
            == (CRes::At { pos: p as int, fr: gframe_of(*fr) }));
    }
    Ok(p)
}

/// Compile an `if` form (position just past the keyword): test block,
/// consequent block, alternative block, with both forward jumps emitted as
/// placeholders and backpatched in place once their targets are known.
#[verifier::rlimit(60)]
fn compile_if(toks: &Vec<Token>, pos: usize, fr: &mut Frame) -> (r: Result<usize, CompileError>)
    requires
        pos <= toks@.len(),
    ensures
        r matches Ok(p2) ==> {
            &&& pos < p2 <= toks@.len()
            &&& frame_extends(*old(fr), *final(fr))
            &&& code_appended(*old(fr), *final(fr)).len() >= 1
            &&& if_shape(code_appended(*old(fr), *final(fr)))
        },
        matches_cres(c_if(toks_view(toks@), pos as int, gframe_of(*old(fr))), r, *final(fr)),
    decreases toks@.len() - pos, 4int,
{
    let ghost f0 = *old(fr);
    let p1 = match compile_block(toks, pos, fr) {
        Ok(x) => x,
        Err(e) => return Err(e),
    };
    let ghost f1 = *fr;
    let ghost t = code_appended(f0, f1);
    let j1 = fr.chunk.code.len();
    fr.chunk.emit(Op::Unreachable);
    let ghost e1 = *fr;
    fr.chunk.emit(Op::Pop);
    let ghost f2 = *fr;
    proof {
        assert(e1.chunk.code@ =~= f1.chunk.code@ + seq![Op::Unreachable]);
        assert(f2.chunk.code@ =~= e1.chunk.code@ + seq![Op::Pop]);
        lemma_gframe_emit(f1, e1, Op::Unreachable);
        lemma_gframe_emit(e1, f2, Op::Pop);
    }
    let p2 = match compile_block(toks, p1, fr) {
        Ok(x) => x,
        Err(e) => return Err(e),
    };
    let ghost f3 = *fr;
    let ghost a = code_appended(f2, f3);
    let j2 = fr.chunk.code.len();
    fr.chunk.emit(Op::Unreachable);
    proof {
        lemma_vec_len_bounded(&fr.chunk.code);
    }
    fr.chunk.patch(j1, Op::JumpIfFalse(j2 + 1 - j1));
    fr.chunk.emit(Op::Pop);
    let ghost f4 = *fr;
    proof {
        assert(gframe_of(f4) =~~= (GFrame {
            code: gframe_of(f3).code.push(Op::Unreachable).update(
                j1 as int,
                Op::JumpIfFalse((j2 + 1 - j1) as usize),
            ).push(Op::Pop),
            ..gframe_of(f3)
        }));
    }
    let p3 = match compile_block(toks, p2, fr) {
        Ok(x) => x,
        Err(e) => return Err(e),
    };
    let ghost f5 = *fr;
    let ghost b = code_appended(f4, f5);
    let end = fr.chunk.code.len();
    proof {
        lemma_vec_len_bounded(&fr.chunk.code);
    }
    fr.chunk.patch(j2, Op::Jump(end - j2));
    proof {
        assert(gframe_of(*fr) =~~= (GFrame {
            code: gframe_of(f5).code.update(j2 as int, Op::Jump((end - j2) as usize)),
            ..gframe_of(f5)
        }));
        let l0 = f0.chunk.code@.len() as int;
        let d1 = (j2 + 1 - j1) as usize;
        let d2 = (end - j2) as usize;
        assert(f1.chunk.code@ =~= f0.chunk.code@ + t);
        assert(f2.chunk.code@ =~= f1.chunk.code@ + seq![Op::Unreachable, Op::Pop]);
        assert(f3.chunk.code@ =~= f2.chunk.code@ + a);
        assert(f4.chunk.code@ == f3.chunk.code@.push(Op::Unreachable).update(
            j1 as int,
            Op::JumpIfFalse(d1),
        ).push(Op::Pop));
        assert(f5.chunk.code@ =~= f4.chunk.code@ + b);
        assert(fr.chunk.code@ == f5.chunk.code@.update(j2 as int, Op::Jump(d2)));
        assert(j1 == l0 + t.len());
        assert(j2 == j1 + 2 + a.len());
        assert(end == j2 + 2 + b.len());
        assert(d1 as int == a.len() + 3);
        assert(d2 as int == b.len() + 2);
        let shape = t + seq![Op::JumpIfFalse((a.len() + 3) as usize), Op::Pop] + a + seq![
            Op::Jump((b.len() + 2) as usize),
            Op::Pop,
        ] + b;
        assert(fr.chunk.code@ =~= f0.chunk.code@ + shape);
        assert(code_appended(f0, *fr) =~= shape);
        assert(if_shape_parts(t, a, b, code_appended(f0, *fr)));
        assert(if_shape(code_appended(f0, *fr)));
        // the frame only grew, and nothing appended is a placeholder
        assert(fr.chunk.code@.subrange(0, l0) =~= f0.chunk.code@);
        assert(fr.chunk.constants@.subrange(0, f0.chunk.constants@.len() as int)
            =~= f0.chunk.constants@);
        assert forall|i: int|
            f0.chunk.constants@.len() <= i < fr.chunk.constants@.len() implies wf_value(
            #[trigger] fr.chunk.constants@[i],
        ) by {
            let k1 = f1.chunk.constants@.len() as int;
            let k3 = f3.chunk.constants@.len() as int;
            if i < k1 {
                assert(fr.chunk.constants@[i] == f1.chunk.constants@[i]);
            } else if i < k3 {
                assert(fr.chunk.constants@[i] == f3.chunk.constants@[i]);
            }
        }
        assert(wf_code(code_appended(f0, *fr))) by {
            assert(forall|i: int|
                0 <= i < shape.len() ==> !((#[trigger] shape[i]) is Unreachable));
        }
    }
    Ok(p3)
}

/// Compile a `let` form (position just past the keyword): register the name
/// in this frame before compiling either block, compile the value block
/// (its result occupies the slot the name resolves to), compile the body
/// block, emit the combine instruction, and take the name back out of
/// scope.
fn compile_let(toks: &Vec<Token>, pos: usize, fr: &mut Frame) -> (r: Result<usize, CompileError>)
    requires
        pos <= toks@.len(),
    ensures
        r matches Ok(p2) ==> {
            &&& pos < p2 <= toks@.len()
            &&& frame_extends(*old(fr), *final(fr))
            &&& code_appended(*old(fr), *final(fr)).len() >= 1
            &&& let_shape(code_appended(*old(fr), *final(fr)))
        },
        matches_cres(c_let(toks_view(toks@), pos as int, gframe_of(*old(fr))), r, *final(fr)),
    decreases toks@.len() - pos, 4int,
{
    if pos >= toks.len() {
        return Err(eof_error(toks));
    }
    proof {
        assert(toks_view(toks@)[pos as int] == tok_view(toks@[pos as int]));
    }
    if toks[pos].kind != TokenKind::Ident {
        return Err(toks[pos].unexpected());
    }
    let ghost f0 = *old(fr);
    let name = copy_range(toks[pos].text.as_slice(), 0, toks[pos].text.len());
    proof {
        assert(name@ =~= toks@[pos as int].text@);
    }
    fr.names.push(name);
    let ghost f1 = *fr;
    proof {
        assert(f1.names@ == f0.names@.push(name));
        assert(names_view(f1.names@) =~= names_view(f0.names@).push(toks@[pos as int].text@));
        assert(gframe_of(f1) =~~= (GFrame {
            names: gframe_of(f0).names.push(toks_view(toks@)[pos as int].text),
            ..gframe_of(f0)
        }));
    }
    let p1 = match compile_block(toks, pos + 1, fr) {
        Ok(x) => x,
        Err(e) => return Err(e),
    };
    let ghost f2 = *fr;
    let ghost v = code_appended(f1, f2);
    let p2 = match compile_block(toks, p1, fr) {
        Ok(x) => x,
        Err(e) => return Err(e),
    };
    let ghost f3 = *fr;
    let ghost b = code_appended(f2, f3);
    emit_op(fr, Op::Squash);
    let ghost f4 = *fr;
    let _ = fr.names.pop();
    proof {
        assert(f1.chunk.code@ == f0.chunk.code@);
        assert(f2.chunk.code@ =~= f1.chunk.code@ + v);
        assert(f3.chunk.code@ =~= f2.chunk.code@ + b);
        assert(fr.chunk.code@ =~= f3.chunk.code@ + seq![Op::Squash]);
        assert(code_appended(f0, *fr) =~= v + b + seq![Op::Squash]);
        assert(let_shape_parts(v, b, code_appended(f0, *fr)));
        assert(let_shape(code_appended(f0, *fr)));
        assert(fr.chunk.code@.subrange(0, f0.chunk.code@.len() as int) =~= f0.chunk.code@);
        assert(fr.chunk.constants@.subrange(0, f0.chunk.constants@.len() as int)
            =~= f0.chunk.constants@);
        // the pushed name comes back off, restoring the scope
        assert(f1.names@ == f0.names@.push(name));
        assert(names_view(f0.names@.push(name)) =~= names_view(f0.names@).push(name@));
        assert(names_view(f3.names@) == names_view(f1.names@));
        assert(f4.names@ == f3.names@);
        assert(fr.names@ == f4.names@.drop_last());
        assert(names_view(f4.names@.drop_last()) =~= names_view(f4.names@).drop_last());
        assert(names_view(f4.names@).drop_last() == names_view(f0.names@).push(
            name@,
        ).drop_last());
        assert(names_view(f0.names@).push(name@).drop_last() =~= names_view(f0.names@));
        assert(names_view(fr.names@) == names_view(f0.names@));
        // ... and the whole step reads back as the specification's let
        assert(f4.chunk.code@ =~= f3.chunk.code@ + seq![Op::Squash]);
        lemma_gframe_emit(f3, f4, Op::Squash);
        assert(names_view(fr.names@) =~= names_view(f4.names@).drop_last());
        assert(gframe_of(*fr) =~~= (GFrame {
            names: gframe_of(f3).names.drop_last(),
            code: gframe_of(f3).code.push(Op::Squash),
            ..gframe_of(f3)
        }));
        assert forall|i: int|
            f0.chunk.constants@.len() <= i < fr.chunk.constants@.len() implies wf_value(
            #[trigger] fr.chunk.constants@[i],
        ) by {
            let k2 = f2.chunk.constants@.len() as int;
            if i < k2 {
                assert(fr.chunk.constants@[i] == f2.chunk.constants@[i]);
            } else {
                assert(fr.chunk.constants@[i] == f3.chunk.constants@[i]);
            }
        }
        assert(wf_code(code_appended(f0, *fr)));
    }
    Ok(p2)
}

/// Compile a function literal (position at the opening `|`): start a fresh
/// frame whose only names are the parameters, compile the body block inside
/// it, close the chunk with a return instruction, and push the finished
/// function as a constant. The fresh frame inherits nothing: no lexical
/// closure over enclosing scope.
fn compile_fn(toks: &Vec<Token>, pos: usize, fr: &mut Frame) -> (r: Result<usize, CompileError>)
    requires
        pos < toks@.len(),
    ensures
        r matches Ok(p2) ==> {
            &&& pos < p2 <= toks@.len()
            &&& frame_extends(*old(fr), *final(fr))
            &&& code_appended(*old(fr), *final(fr)) == seq![
                Op::Constant(old(fr).chunk.constants@.len() as usize),
            ]
            &&& consts_appended(*old(fr), *final(fr)).len() == 1
            &&& fn_const_shape(consts_appended(*old(fr), *final(fr))[0])
            &&& (consts_appended(*old(fr), *final(fr))[0] matches Value::Function(g) && g.arity
                == g_params_end(toks_view(toks@), pos + 1) - (pos + 1))
        },
        matches_cres(c_fn(toks_view(toks@), pos as int, gframe_of(*old(fr))), r, *final(fr)),
    decreases toks@.len() - pos, 1int,
{
    proof {
        lemma_vec_len_bounded(toks);
    }
    let ghost tv = toks_view(toks@);
    let mut child = Frame { names: Vec::new(), arity: 0, chunk: Chunk::new() };
    let mut p = pos + 1;
    while p < toks.len() && toks[p].kind == TokenKind::Ident
        invariant
            tv == toks_view(toks@),
            pos + 1 <= p <= toks@.len(),
            pos < toks@.len(),
            child.arity == child.names@.len(),
            child.arity == p - (pos + 1),
            g_params_end(tv, pos + 1) == g_params_end(tv, p as int),
            names_view(child.names@) =~= tv.subrange(pos + 1, p as int).map_values(
                |t: SpecToken| t.text,
            ),
            child.chunk.code@.len() == 0,
            child.chunk.constants@.len() == 0,
        decreases toks@.len() - p,
    {
        proof {
            assert(tv[p as int] == tok_view(toks@[p as int]));
        }
        let pname = copy_range(toks[p].text.as_slice(), 0, toks[p].text.len());
        let ghost cprev = child;
        proof {
            assert(pname@ =~= toks@[p as int].text@);
        }
        child.names.push(pname);
        child.arity = child.arity + 1;
        proof {
            assert(child.names@ == cprev.names@.push(pname));
            assert(tv.subrange(pos + 1, p + 1).map_values(|t: SpecToken| t.text)
                =~= tv.subrange(pos + 1, p as int).map_values(|t: SpecToken| t.text).push(
                tv[p as int].text,
            ));
            assert(names_view(child.names@) =~= names_view(cprev.names@).push(pname@));
            assert(names_view(child.names@) =~= tv.subrange(pos + 1, p + 1).map_values(
                |t: SpecToken| t.text,
            ));
        }
        p = p + 1;
    }
    proof {
        if p < toks.len() {
            assert(tv[p as int] == tok_view(toks@[p as int]));
        }
        assert(g_params_end(tv, pos + 1) == p);
    }
    if p >= toks.len() {
        return Err(eof_error(toks));
    }
    if toks[p].kind != TokenKind::Pipe {
        return Err(toks[p].unexpected());
    }
    let ghost e = p as int;
    p = p + 1;
    let ghost c0 = child;
    proof {
        assert(gvals_of(Seq::<Value>::empty()) == Seq::<GVal>::empty());
        assert(gframe_of(c0) =~~= (GFrame {
            names: tv.subrange(pos + 1, e).map_values(|t: SpecToken| t.text),
            arity: e - (pos + 1),
            code: Seq::<Op>::empty(),
            consts: Seq::<GVal>::empty(),
        }));
    }
    let p2 = match compile_block(toks, p, &mut child) {
        Ok(x) => x,
        Err(e) => return Err(e),
    };
    let ghost body = code_appended(c0, child);
    let ghost cpre = child;
    child.chunk.emit(Op::Return);
    proof {
        assert(child.chunk.code@ == cpre.chunk.code@.push(Op::Return));
        assert(child.chunk.code@ =~= body + seq![Op::Return]);
        assert(child.chunk.code@.drop_last() =~= body);
        assert(wf_code(child.chunk.code@)) by {
            assert(forall|i: int|
                0 <= i < body.len() ==> !((#[trigger] body[i]) is Unreachable));
        }
        assert forall|i: int| 0 <= i < child.chunk.constants@.len() implies wf_value(
            #[trigger] child.chunk.constants@[i],
        ) by {
            assert(child.chunk.constants@[i] == consts_appended(c0, child)[i]);
        }
    }
    let ghost cfin = child;
    let f = Function { arity: child.arity, chunk: child.chunk };
    let cv = Value::function(f);
    proof {
        assert(wf_value(cv));
        assert(fn_const_shape(cv));
        assert(gframe_of(cfin).code == gframe_of(cpre).code.push(Op::Return));
        assert(gframe_of(cfin).consts == gframe_of(cpre).consts);
        assert(gval_of(cv) =~~= GVal::Fun(
            GFun {
                arity: e - (pos + 1),
                code: gframe_of(cpre).code.push(Op::Return),
                consts: gframe_of(cpre).consts,
            },
        ));
    }
    let ghost f0 = *fr;
    emit_const(fr, cv);
    proof {
        lemma_gframe_const(f0, *fr, cv);
    }
    Ok(p2)
}

/// Compile a call (position at the opening parenthesis): the callee
/// expression, then each argument expression in order, then one call
/// instruction carrying the argument count. A call result is itself an
/// expression, so calls chain.
fn compile_call(toks: &Vec<Token>, pos: usize, fr: &mut Frame) -> (r: Result<usize, CompileError>)
    requires
        pos < toks@.len(),
    ensures
        r matches Ok(p2) ==> {
            &&& pos < p2 <= toks@.len()
            &&& frame_extends(*old(fr), *final(fr))
            &&& code_appended(*old(fr), *final(fr)).len() >= 1
            &&& call_shape(code_appended(*old(fr), *final(fr)))
        },
        matches_cres(c_call(toks_view(toks@), pos as int, gframe_of(*old(fr))), r, *final(fr)),
    decreases toks@.len() - pos, 1int,
{
    proof {
        lemma_vec_len_bounded(toks);
    }
    let ghost f0 = *old(fr);
    let p1 = match compile_expr(toks, pos + 1, fr) {
        Ok(x) => x,
        Err(e) => return Err(e),
    };
    let ghost f1 = *fr;
    let ghost cseq = code_appended(f0, f1);
    let mut p = p1;
    let mut n: usize = 0;
    let ghost mut aseq: Seq<Op> = Seq::empty();
    proof {
        assert(code_appended(f0, *fr) =~= cseq + aseq);
    }
    loop
        invariant
            pos + 1 < p <= toks@.len(),
            toks@.len() <= usize::MAX,
            n <= aseq.len(),
            n + pos + 1 <= p,
            frame_extends(f0, *fr),
            f0 == *old(fr),
            pos < toks@.len(),
            cseq.len() >= 1,
            code_appended(f0, *fr) == cseq + aseq,
            pos + 1 < p1 <= toks@.len(),
            p1 <= p,
            c_expr(toks_view(toks@), pos + 1, gframe_of(f0)) == (CRes::At {
                pos: p1 as int,
                fr: gframe_of(f1),
            }),
            c_args(toks_view(toks@), p1 as int, gframe_of(f1), 0) == c_args(
                toks_view(toks@),
                p as int,
                gframe_of(*fr),
                n as int,
            ),
        ensures
            pos + 1 < p < toks@.len(),
            toks@.len() <= usize::MAX,
            n <= aseq.len(),
            n + pos + 1 <= p,
            frame_extends(f0, *fr),
            pos < toks@.len(),
            cseq.len() >= 1,
            code_appended(f0, *fr) == cseq + aseq,
            pos + 1 < p1 <= toks@.len(),
            p1 <= p,
            c_expr(toks_view(toks@), pos + 1, gframe_of(f0)) == (CRes::At {
                pos: p1 as int,
                fr: gframe_of(f1),
            }),
            c_args(toks_view(toks@), p1 as int, gframe_of(f1), 0) == (CArgs::At {
                pos: p as int,
                fr: gframe_of(*fr),
                n: n as int,
            }),
            toks@[p as int].kind == TokenKind::RParen,
        decreases toks@.len() - p,
    {
        if p >= toks.len() {
            return Err(eof_error(toks));
        }
        proof {
            assert(toks_view(toks@)[p as int] == tok_view(toks@[p as int]));
        }
        if toks[p].kind == TokenKind::RParen {
            break;
        }
        let ghost fa = *fr;
        let pnext = match compile_expr(toks, p, fr) {
            Ok(x) => x,
            Err(e) => return Err(e),
        };
        proof {
            let seg = code_appended(fa, *fr);
            lemma_extends_trans(f0, fa, *fr);
            assert(fr.chunk.code@ =~= fa.chunk.code@ + seg);
            assert(fa.chunk.code@ =~= f0.chunk.code@ + (cseq + aseq));
            assert(code_appended(f0, *fr) =~= cseq + (aseq + seg));
            assert(seg.len() >= 1);
            aseq = aseq + seg;
        }
        p = pnext;
        n = n + 1;
    }
    let ghost fb = *fr;
    emit_op(fr, Op::Call(n));
    proof {
        assert(fr.chunk.code@ =~= fb.chunk.code@ + seq![Op::Call(n)]);
        assert(fb.chunk.code@ =~= f0.chunk.code@ + (cseq + aseq));
        assert(code_appended(f0, *fr) =~= cseq + aseq + seq![Op::Call(n)]);
        lemma_extends_trans(f0, fb, *fr);
        assert(call_shape_parts(cseq, aseq, n as int, code_appended(f0, *fr)));
        assert(call_shape(code_appended(f0, *fr)));
        lemma_gframe_emit(fb, *fr, Op::Call(n));
    }
    Ok(p + 1)
}

/// Compile a whole source buffer: lex it, register the built-in names in
/// the single outermost frame, compile the top-level block, reject trailing
/// input, and close with a return instruction. The result is one function
/// whose arity is the number of built-ins (they stand below its locals on
/// the machine's stack), whose chunk ends in `Return`, and which holds no
/// leftover backpatch placeholder anywhere, nested functions included.
pub fn compile(src: &[u8]) -> (r: Result<Function, CompileError>)
    requires
        src@.len() + 2 <= usize::MAX,
    ensures
        r matches Ok(f) ==> {
            &&& wf_function(f)
            &&& f.arity == spec_registry().len()
            &&& f.chunk.code@.len() >= 2
            &&& f.chunk.code@.last() == Op::Return
            &&& is_block_code(f.chunk.code@.drop_last())
            &&& lex_from(src@, 0, 1, 0) matches LexResult::Toks(_)
        },
        r matches Err(e) ==> (lex_from(src@, 0, 1, 0) matches LexResult::Fail { kind, line, col }
            ==> e.kind == kind && e.line == line && e.column == col),
        (lex_from(src@, 0, 1, 0) matches LexResult::Toks(tv) ==> match r {
            Result::Ok(f) => compile_spec(tv) == CProg::Fun(gfun_of(f)),
            Result::Err(e) => compile_spec(tv) == CProg::Fail(e),
        }),
{
    let toks = match tokenize(src) {
        Ok(t) => t,
        Err(e) => return Err(e),
    };
    let ghost tv = toks_view(toks@);
    proof {
        assert(tv =~= toks@.map_values(|t: Token| tok_view(t)));
    }
    let reg = crate::native::registry();
    let arity = reg.len();
    let mut fr = Frame { names: Vec::new(), arity, chunk: Chunk::new() };
    let mut j: usize = 0;
    while j < reg.len()
        invariant
            j <= reg@.len(),
            fr.names@.len() == j,
            fr.arity == reg@.len(),
            reg@.len() == spec_registry().len(),
            forall|i: int| 0 <= i < reg@.len() ==> (#[trigger] reg@[i]).0@ == spec_registry()[i].0,
            fr.chunk.code@.len() == 0,
            fr.chunk.constants@.len() == 0,
            forall|i: int| 0 <= i < j ==> (#[trigger] fr.names@[i])@ == spec_registry()[i].0,
        decreases reg@.len() - j,
    {
        let bname = copy_range(reg[j].0.as_slice(), 0, reg[j].0.len());
        proof {
            assert(bname@ =~= reg@[j as int].0@);
        }
        fr.names.push(bname);
        j = j + 1;
    }
    let ghost f0 = fr;
    proof {
        assert(names_view(f0.names@) =~= g_registry_names());
        assert(gvals_of(Seq::<Value>::empty()) == Seq::<GVal>::empty());
        assert(gframe_of(f0) =~~= (GFrame {
            names: g_registry_names(),
            arity: spec_registry().len() as int,
            code: Seq::<Op>::empty(),
            consts: Seq::<GVal>::empty(),
        }));
    }
    let p = match compile_block(&toks, 0, &mut fr) {
        Ok(x) => x,
        Err(e) => return Err(e),
    };
    if p < toks.len() {
        proof {
            assert(tv[p as int] == tok_view(toks@[p as int]));
        }
        return Err(toks[p].location.error(ErrorKind::TrailingInput));
    }
    let ghost body = code_appended(f0, fr);
    fr.chunk.emit(Op::Return);
    let ghost ffin = fr;
    proof {
        assert(fr.chunk.code@ =~= body + seq![Op::Return]);
        assert(fr.chunk.code@.drop_last() =~= body);
        assert(wf_code(fr.chunk.code@)) by {
            assert(forall|i: int|
                0 <= i < body.len() ==> !((#[trigger] body[i]) is Unreachable));
        }
        assert forall|i: int| 0 <= i < fr.chunk.constants@.len() implies wf_value(
            #[trigger] fr.chunk.constants@[i],
        ) by {
            assert(fr.chunk.constants@[i] == consts_appended(f0, fr)[i]);
        }
    }
    let out = Function { arity: fr.arity, chunk: fr.chunk };
    proof {
        assert(gfun_of(out) =~~= (GFun {
            arity: gframe_of(ffin).arity,
            code: gframe_of(ffin).code,
            consts: gframe_of(ffin).consts,
        }));
    }
    Ok(out)
}

} // verus!
