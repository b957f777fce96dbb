//! The initializer trampoline's runtime.
//!
//! An injected module may export an initializer. The thunk calls it through
//! a fixed shape — `(data: **u8, size: *usize) -> usize` — and the wrapper
//! behind that export drives the logic here: it decodes the argument buffer
//! against the initializer's declared parameter list, invokes the user's
//! function, and reports the outcome through the two out-parameters and the
//! return status. Everything that decides — the frame decoding, the check
//! that the whole buffer was consumed, the encoding of a structured error,
//! and the out-parameter protocol — is verified; only the unwind catch and
//! the raw-memory traffic around it stay outside.

use crate::codec::{
    enc_list16, enc_text, list16_ok, push_list16, push_text, push_u16_le, push_u32_le,
    push_u64_le, read_list16, read_text, read_u16_le, read_u32_le, read_u64_le, text_ok,
    u16_le, u32_le, u64_le, DecodeError,
};
use vstd::prelude::*;
use vstd::string::StringExecFns;

verus! {

/// One value handed to an initializer.
#[derive(Debug, Clone, PartialEq)]
pub enum ArgValue {
    /// An unsigned 32-bit integer.
    U32(u32),
    /// An unsigned 64-bit integer.
    U64(u64),
    /// A signed 16-bit integer.
    I16(i16),
    /// A string.
    Text(String),
    /// A list of signed 16-bit integers.
    List16(Vec<i16>),
    /// A kernel handle value, written with the width of a target pointer.
    Handle(u64),
}

/// The declared type of one initializer parameter.
#[derive(Clone, Copy, Debug, PartialEq, Eq, Structural)]
pub enum ArgType {
    /// An unsigned 32-bit integer.
    U32,
    /// An unsigned 64-bit integer.
    U64,
    /// A signed 16-bit integer.
    I16,
    /// A string.
    Text,
    /// A list of signed 16-bit integers.
    List16,
    /// A kernel handle value.
    Handle,
}

/// One declared initializer parameter: its name and its type.
#[derive(Debug, Clone)]
pub struct Param {
    /// The parameter's name, used in error reports.
    pub name: String,
    /// The parameter's type.
    pub ty: ArgType,
}

/// The type a value decodes against.
pub open spec fn arg_type_of(a: ArgValue) -> ArgType {
    match a {
        ArgValue::U32(_) => ArgType::U32,
        ArgValue::U64(_) => ArgType::U64,
        ArgValue::I16(_) => ArgType::I16,
        ArgValue::Text(_) => ArgType::Text,
        ArgValue::List16(_) => ArgType::List16,
        ArgValue::Handle(_) => ArgType::Handle,
    }
}

/// Whether a value is small enough for its frame.
pub open spec fn arg_ok(a: ArgValue) -> bool {
    match a {
        ArgValue::Text(s) => text_ok(s@),
        ArgValue::List16(v) => list16_ok(v@),
        _ => true,
    }
}

/// The frame a single value is written as.
pub open spec fn enc_arg(a: ArgValue) -> Seq<u8> {
    match a {
        ArgValue::U32(v) => u32_le(v),
        ArgValue::U64(v) => u64_le(v),
        ArgValue::I16(v) => u16_le(v as u16),
        ArgValue::Text(s) => enc_text(s@),
        ArgValue::List16(v) => enc_list16(v@),
        ArgValue::Handle(h) => u64_le(h),
    }
}

/// Whether every value in a list is small enough for its frame.
pub open spec fn args_ok(l: Seq<ArgValue>) -> bool {
    forall|i: int| 0 <= i < l.len() ==> arg_ok(#[trigger] l[i])
}

/// The argument stream: each value's frame, in declared order, unframed.
pub open spec fn enc_args(l: Seq<ArgValue>) -> Seq<u8>
    decreases l.len(),
{
    if l.len() == 0 {
        Seq::empty()
    } else {
        enc_arg(l[0]) + enc_args(l.drop_first())
    }
}

/// Whether a value list fits a list of declared types, position by position.
pub open spec fn args_match(l: Seq<ArgValue>, tys: Seq<ArgType>) -> bool {
    l.len() == tys.len() && forall|i: int|
        0 <= i < l.len() ==> arg_type_of(#[trigger] l[i]) == tys[i]
}

/// The declared types of a parameter list.
pub open spec fn sig_types(sig: Seq<Param>) -> Seq<ArgType> {
    sig.map_values(|p: Param| p.ty)
}

/// Whether two values are the same, compared by contents.
pub open spec fn arg_like(a: ArgValue, b: ArgValue) -> bool {
    match (a, b) {
        (ArgValue::U32(x), ArgValue::U32(y)) => x == y,
        (ArgValue::U64(x), ArgValue::U64(y)) => x == y,
        (ArgValue::I16(x), ArgValue::I16(y)) => x == y,
        (ArgValue::Text(x), ArgValue::Text(y)) => x@ == y@,
        (ArgValue::List16(x), ArgValue::List16(y)) => x@ == y@,
        (ArgValue::Handle(x), ArgValue::Handle(y)) => x == y,
        _ => false,
    }
}

/// Whether two value lists are the same, compared by contents.
pub open spec fn args_like(a: Seq<ArgValue>, b: Seq<ArgValue>) -> bool {
    a.len() == b.len() && forall|i: int| 0 <= i < a.len() ==> arg_like(#[trigger] a[i], b[i])
}

/// The argument stream of a concatenation is the concatenated streams.
pub proof fn lemma_enc_args_concat(a: Seq<ArgValue>, b: Seq<ArgValue>)
    ensures
        enc_args(a + b) == enc_args(a) + enc_args(b),
    decreases a.len(),
{
    if a.len() == 0 {
        assert(a + b =~= b);
        assert(enc_args(a) + enc_args(b) =~= enc_args(b));
    } else {
        assert((a + b).drop_first() =~= a.drop_first() + b);
        lemma_enc_args_concat(a.drop_first(), b);
        assert(enc_args(a + b) =~= enc_args(a) + enc_args(b));
    }
}

/// The argument stream of a single value is that value's frame.
pub proof fn lemma_enc_args_single(a: ArgValue)
    ensures
        enc_args(seq![a]) == enc_arg(a),
{
    assert(seq![a].drop_first() =~= Seq::<ArgValue>::empty());
    assert(enc_args(Seq::<ArgValue>::empty()) =~= Seq::<u8>::empty());
    assert(enc_args(seq![a]) =~= enc_arg(a));
}

/// Appends the frame of one value.
pub fn push_arg(out: &mut Vec<u8>, a: &ArgValue)
    ensures
        arg_ok(*a),
        final(out)@ == old(out)@ + enc_arg(*a),
{
    match a {
        ArgValue::U32(v) => push_u32_le(out, *v),
        ArgValue::U64(v) => push_u64_le(out, *v),
        ArgValue::I16(v) => push_u16_le(out, *v as u16),
        ArgValue::Text(s) => push_text(out, s.as_str()),
        ArgValue::List16(v) => push_list16(out, v),
        ArgValue::Handle(h) => push_u64_le(out, *h),
    }
}

/// Serializes an argument list into the stream the trampoline reads.
pub fn encode_args(args: &Vec<ArgValue>) -> (r: Vec<u8>)
    ensures
        args_ok(args@),
        r@ == enc_args(args@),
{
    let mut out: Vec<u8> = Vec::new();
    let mut i: usize = 0;
    while i < args.len()
        invariant
            i <= args@.len(),
            args_ok(args@.take(i as int)),
            out@ == enc_args(args@.take(i as int)),
        decreases args@.len() - i,
    {
        push_arg(&mut out, &args[i]);
        proof {
            let a = args@[i as int];
            assert(args@.take(i + 1) =~= args@.take(i as int) + seq![a]);
            lemma_enc_args_concat(args@.take(i as int), seq![a]);
            lemma_enc_args_single(a);
            assert(args_ok(args@.take(i + 1)));
        }
        i = i + 1;
    }
    assert(args@.take(args@.len() as int) =~= args@);
    out
}

/// Decodes one frame of the given declared type at `pos`. Succeeds exactly
/// when a whole frame of that type is present there, and then returns the
/// one value that frame encodes.
fn decode_frame(buf: &[u8], pos: usize, ty: ArgType) -> (r: Result<(ArgValue, usize), DecodeError>)
    ensures
        r matches Ok(anp) ==> arg_ok(anp.0) && arg_type_of(anp.0) == ty && pos + enc_arg(
            anp.0).len() == anp.1 <= buf@.len() && buf@.subrange(pos as int, anp.1 as int)
            == enc_arg(anp.0),
        forall|c: ArgValue|
            arg_ok(c) && arg_type_of(c) == ty && pos + enc_arg(c).len() <= buf@.len()
                && buf@.subrange(pos as int, pos + enc_arg(c).len()) == #[trigger] enc_arg(c)
                ==> (r matches Ok(anp) && arg_like(anp.0, c) && anp.1 == pos + enc_arg(c).len()),
{
    match ty {
        ArgType::U32 => {
            match read_u32_le(buf, pos) {
                Some((v, np)) => {
                    proof {
                        assert forall|c: ArgValue|
                            arg_ok(c) && arg_type_of(c) == ty && pos + enc_arg(c).len()
                                <= buf@.len() && buf@.subrange(pos as int, pos + enc_arg(c).len())
                                == #[trigger] enc_arg(c) implies arg_like(ArgValue::U32(v), c) by {
                            match c {
                                ArgValue::U32(v2) => {
                                    crate::codec::lemma_u32_le_injective(v, v2);
                                },
                                _ => {},
                            }
                        }
                    }
                    Ok((ArgValue::U32(v), np))
                },
                None => Err(DecodeError::Eof),
            }
        },
        ArgType::U64 => {
            match read_u64_le(buf, pos) {
                Some((v, np)) => {
                    proof {
                        assert forall|c: ArgValue|
                            arg_ok(c) && arg_type_of(c) == ty && pos + enc_arg(c).len()
                                <= buf@.len() && buf@.subrange(pos as int, pos + enc_arg(c).len())
                                == #[trigger] enc_arg(c) implies arg_like(ArgValue::U64(v), c) by {
                            match c {
                                ArgValue::U64(v2) => {
                                    crate::codec::lemma_u64_le_injective(v, v2);
                                },
                                _ => {},
                            }
                        }
                    }
                    Ok((ArgValue::U64(v), np))
                },
                None => Err(DecodeError::Eof),
            }
        },
        ArgType::Handle => {
            match read_u64_le(buf, pos) {
                Some((v, np)) => {
                    proof {
                        assert forall|c: ArgValue|
                            arg_ok(c) && arg_type_of(c) == ty && pos + enc_arg(c).len()
                                <= buf@.len() && buf@.subrange(pos as int, pos + enc_arg(c).len())
                                == #[trigger] enc_arg(c) implies arg_like(ArgValue::Handle(v),
                            c) by {
                            match c {
                                ArgValue::Handle(v2) => {
                                    crate::codec::lemma_u64_le_injective(v, v2);
                                },
                                _ => {},
                            }
                        }
                    }
                    Ok((ArgValue::Handle(v), np))
                },
                None => Err(DecodeError::Eof),
            }
        },
        ArgType::I16 => {
            match read_u16_le(buf, pos) {
                Some((w, np)) => {
                    let v = w as i16;
                    proof {
                        assert((w as i16) as u16 == w) by (bit_vector);
                        assert forall|c: ArgValue|
                            arg_ok(c) && arg_type_of(c) == ty && pos + enc_arg(c).len()
                                <= buf@.len() && buf@.subrange(pos as int, pos + enc_arg(c).len())
                                == #[trigger] enc_arg(c) implies arg_like(ArgValue::I16(v), c) by {
                            match c {
                                ArgValue::I16(v2) => {
                                    crate::codec::lemma_u16_le_injective(w, v2 as u16);
                                    let x = v2;
                                    assert(w == (x as u16) ==> (w as i16) == x) by (bit_vector);
                                },
                                _ => {},
                            }
                        }
                    }
                    Ok((ArgValue::I16(v), np))
                },
                None => Err(DecodeError::Eof),
            }
        },
        ArgType::Text => {
            match read_text(buf, pos) {
                Ok((s, np)) => Ok((ArgValue::Text(s), np)),
                Err(e) => Err(e),
            }
        },
        ArgType::List16 => {
            match read_list16(buf, pos) {
                Ok((v, np)) => Ok((ArgValue::List16(v), np)),
                Err(e) => Err(e),
            }
        },
    }
}

/// In a well-typed argument list whose tail stream stands at `pos` in
/// `full`, the frame of the value at `k` stands at `pos`, and the stream of
/// the values after it follows the frame.
proof fn lemma_frame_at(vs: Seq<ArgValue>, k: int, full: Seq<u8>, pos: int)
    requires
        0 <= k < vs.len(),
        0 <= pos <= full.len(),
        enc_args(vs.skip(k)) == full.subrange(pos, full.len() as int),
    ensures
        pos + enc_arg(vs[k]).len() <= full.len(),
        full.subrange(pos, pos + enc_arg(vs[k]).len()) == enc_arg(vs[k]),
        enc_args(vs.skip(k + 1)) == full.subrange(pos + enc_arg(vs[k]).len(), full.len() as int),
{
    assert(vs.skip(k) =~= seq![vs[k]] + vs.skip(k + 1));
    lemma_enc_args_concat(seq![vs[k]], vs.skip(k + 1));
    lemma_enc_args_single(vs[k]);
    let head = enc_arg(vs[k]);
    let tail = enc_args(vs.skip(k + 1));
    assert(enc_args(vs.skip(k)) == head + tail);
    assert(full.subrange(pos, full.len() as int) == head + tail);
    assert(head.len() + tail.len() == full.len() - pos);
    let l = head.len() as int;
    assert(full.subrange(pos, pos + l) =~= head);
    assert forall|i: int| 0 <= i < tail.len() implies tail[i] == full[pos + l + i] by {
        assert((head + tail)[l + i] == tail[i]);
        assert(full.subrange(pos, full.len() as int)[l + i] == full[pos + l + i]);
    }
    assert(tail =~= full.subrange(pos + l, full.len() as int));
}

/// Decodes the whole argument stream against a declared parameter list, in
/// declared order, then checks that the stream held nothing more.
///
/// The buffer is accepted exactly when it is the stream of a value list
/// that fits the declared types. A frame that cannot be decoded is reported
/// as `Argument` with that parameter's name; a buffer with bytes to spare
/// after the last parameter is reported as `TooManyArguments`.
pub fn decode_args(buf: &[u8], sig: &Vec<Param>) -> (r: Result<Vec<ArgValue>, InitError>)
    ensures
        r matches Ok(vals) ==> args_ok(vals@) && args_match(vals@, sig_types(sig@)) && buf@
            == enc_args(vals@),
        forall|vs: Seq<ArgValue>|
            args_ok(vs) && args_match(vs, sig_types(sig@)) && buf@ == #[trigger] enc_args(vs)
                ==> (r matches Ok(vals) && args_like(vals@, vs)),
        r matches Err(e) ==> (e is Argument || e is TooManyArguments),
{
    let ghost tys = sig_types(sig@);
    let mut vals: Vec<ArgValue> = Vec::new();
    let mut pos: usize = 0;
    let mut k: usize = 0;
    let n = sig.len();
    proof {
        assert(tys.len() == sig@.len());
        assert(enc_args(Seq::<ArgValue>::empty()) =~= Seq::<u8>::empty());
        assert(buf@.subrange(0, 0) =~= Seq::<u8>::empty());
        assert(tys.take(0) =~= Seq::<ArgType>::empty());
        assert forall|vs: Seq<ArgValue>|
            args_ok(vs) && args_match(vs, tys) && buf@ == #[trigger] enc_args(vs) implies enc_args(
            vs.skip(0)) == buf@.subrange(0, buf@.len() as int) by {
            assert(vs.skip(0) =~= vs);
            assert(buf@.subrange(0, buf@.len() as int) =~= buf@);
        }
    }
    while k < n
        invariant
            k <= n == sig@.len(),
            tys == sig_types(sig@),
            tys.len() == n,
            pos <= buf@.len(),
            vals@.len() == k,
            args_ok(vals@),
            args_match(vals@, tys.take(k as int)),
            enc_args(vals@) == buf@.subrange(0, pos as int),
            forall|vs: Seq<ArgValue>|
                args_ok(vs) && args_match(vs, tys) && buf@ == #[trigger] enc_args(vs) ==> ((
                forall|j: int| 0 <= j < k ==> arg_like(#[trigger] vals@[j], vs[j])) && enc_args(
                    vs.skip(k as int)) == buf@.subrange(pos as int, buf@.len() as int)),
        decreases n - k,
    {
        let ty = sig[k].ty;
        proof {
            assert(tys[k as int] == sig@[k as int].ty);
        }
        let outcome = decode_frame(buf, pos, ty);
        match outcome {
            Err(e) => {
                proof {
                    assert forall|vs: Seq<ArgValue>|
                        !(args_ok(vs) && args_match(vs, tys) && buf@
                            == #[trigger] enc_args(vs)) by {
                        if args_ok(vs) && args_match(vs, tys) && buf@ == enc_args(vs) {
                            lemma_frame_at(vs, k as int, buf@, pos as int);
                            assert(arg_ok(vs[k as int]));
                            assert(arg_type_of(vs[k as int]) == ty);
                            assert(outcome is Ok);
                        }
                    }
                }
                return Err(InitError::Argument(sig[k].name.clone(), e.describe()));
            },
            Ok((a, np)) => {
                let ghost pre = vals@;
                let ghost oldpos = pos as int;
                vals.push(a);
                pos = np;
                proof {
                    assert(vals@ =~= pre + seq![a]);
                    lemma_enc_args_concat(pre, seq![a]);
                    lemma_enc_args_single(a);
                    assert(enc_args(vals@) =~= buf@.subrange(0, pos as int));
                    assert(args_match(vals@, tys.take(k + 1)));
                    assert forall|vs: Seq<ArgValue>|
                        args_ok(vs) && args_match(vs, tys) && buf@
                            == #[trigger] enc_args(vs) implies ((forall|j: int|
                        0 <= j < k + 1 ==> arg_like(#[trigger] vals@[j], vs[j])) && enc_args(
                            vs.skip(k + 1)) == buf@.subrange(pos as int, buf@.len() as int)) by {
                        lemma_frame_at(vs, k as int, buf@, oldpos);
                        assert(arg_ok(vs[k as int]));
                        assert(arg_type_of(vs[k as int]) == ty);
                        assert(arg_like(a, vs[k as int]));
                        assert(forall|j: int| 0 <= j < k ==> arg_like(#[trigger] vals@[j], vs[j]));
                        assert(arg_like(vals@[k as int], vs[k as int]));
                    }
                }
                k = k + 1;
            },
        }
    }
    if pos != buf.len() {
        proof {
            assert forall|vs: Seq<ArgValue>|
                !(args_ok(vs) && args_match(vs, tys) && buf@ == #[trigger] enc_args(vs)) by {
                if args_ok(vs) && args_match(vs, tys) && buf@ == enc_args(vs) {
                    assert(vs.skip(n as int) =~= Seq::<ArgValue>::empty());
                    assert(enc_args(Seq::<ArgValue>::empty()) =~= Seq::<u8>::empty());
                }
            }
        }
        Err(InitError::TooManyArguments)
    } else {
        proof {
            assert(buf@.subrange(0, pos as int) =~= buf@);
            assert(tys.take(n as int) =~= tys);
        }
        Ok(vals)
    }
}

/// An error that can occur in a call to an initializer function.
#[derive(Debug, Clone, PartialEq)]
pub enum InitError {
    /// A panic occurred; the text is the panic's message.
    Panic(String),
    /// The named argument could not be deserialized; the second text says why.
    Argument(String, String),
    /// The buffer held more than the declared arguments.
    TooManyArguments,
}

/// Whether an error's texts are small enough for their frames.
pub open spec fn init_error_ok(e: InitError) -> bool {
    match e {
        InitError::Panic(m) => text_ok(m@),
        InitError::Argument(name, why) => text_ok(name@) && text_ok(why@),
        InitError::TooManyArguments => true,
    }
}

/// The encoding of an initializer error: a 32-bit variant tag, then the
/// variant's texts as string frames.
pub open spec fn enc_init_error(e: InitError) -> Seq<u8> {
    match e {
        InitError::Panic(m) => u32_le(0) + enc_text(m@),
        InitError::Argument(name, why) => u32_le(1) + enc_text(name@) + enc_text(why@),
        InitError::TooManyArguments => u32_le(2),
    }
}

/// Whether two initializer errors are the same, compared by contents.
pub open spec fn init_error_like(a: InitError, b: InitError) -> bool {
    match (a, b) {
        (InitError::Panic(x), InitError::Panic(y)) => x@ == y@,
        (InitError::Argument(xn, xw), InitError::Argument(yn, yw)) => xn@ == yn@ && xw@ == yw@,
        (InitError::TooManyArguments, InitError::TooManyArguments) => true,
        _ => false,
    }
}

/// Serializes an initializer error into the payload the injector reads back.
pub fn encode_init_error(e: &InitError) -> (r: Vec<u8>)
    ensures
        init_error_ok(*e),
        r@ == enc_init_error(*e),
{
    let mut out: Vec<u8> = Vec::new();
    match e {
        InitError::Panic(m) => {
            push_u32_le(&mut out, 0);
            push_text(&mut out, m.as_str());
        },
        InitError::Argument(name, why) => {
            push_u32_le(&mut out, 1);
            push_text(&mut out, name.as_str());
            push_text(&mut out, why.as_str());
        },
        InitError::TooManyArguments => {
            push_u32_le(&mut out, 2);
        },
    }
    assert(out@ =~= enc_init_error(*e));
    out
}

/// In the encoding of an initializer error, the tag stands first and each
/// text's frame follows in order, filling the buffer exactly.
proof fn lemma_init_error_frames(e: InitError, buf: Seq<u8>)
    requires
        init_error_ok(e),
        buf == enc_init_error(e),
    ensures
        buf.len() >= 4,
        buf.subrange(0, 4) == u32_le(tag_of_init_error(e)),
        e matches InitError::Panic(m) ==> 4 + enc_text(m@).len() == buf.len() && buf.subrange(
            4, buf.len() as int) == enc_text(m@),
        e matches InitError::Argument(n0, w0) ==> 4 + enc_text(n0@).len() + enc_text(w0@).len()
            == buf.len() && buf.subrange(4, 4 + enc_text(n0@).len() as int) == enc_text(n0@)
            && buf.subrange(4 + enc_text(n0@).len() as int, buf.len() as int) == enc_text(w0@),
        e is TooManyArguments ==> buf.len() == 4,
{
    match e {
        InitError::Panic(m) => {
            assert(buf.subrange(0, 4) =~= u32_le(0));
            assert(buf.subrange(4, buf.len() as int) =~= enc_text(m@));
        },
        InitError::Argument(n0, w0) => {
            let ln = enc_text(n0@).len() as int;
            assert(buf.subrange(0, 4) =~= u32_le(1));
            assert(buf.subrange(4, 4 + ln) =~= enc_text(n0@));
            assert(buf.subrange(4 + ln, buf.len() as int) =~= enc_text(w0@));
        },
        InitError::TooManyArguments => {
            assert(buf.subrange(0, 4) =~= u32_le(2));
        },
    }
}

/// An initializer error is of the variant its tag names.
proof fn lemma_variant_of_tag(e: InitError)
    ensures
        tag_of_init_error(e) == 0 ==> e is Panic,
        tag_of_init_error(e) == 1 ==> e is Argument,
        tag_of_init_error(e) == 2 ==> e is TooManyArguments,
        tag_of_init_error(e) <= 2,
{
}

/// Decodes an initializer-error payload. The buffer is accepted exactly
/// when it is, whole, the encoding of one initializer error, and that error
/// is returned.
#[verifier::rlimit(50)]
pub fn decode_init_error(buf: &[u8]) -> (r: Result<InitError, DecodeError>)
    ensures
        r matches Ok(e) ==> init_error_ok(e) && buf@ == enc_init_error(e),
        forall|e: InitError|
            init_error_ok(e) && buf@ == #[trigger] enc_init_error(e) ==> (r matches Ok(d)
                && init_error_like(d, e)),
{
    let tag = match read_u32_le(buf, 0) {
        None => {
            proof {
                assert forall|e: InitError|
                    !(init_error_ok(e) && buf@ == #[trigger] enc_init_error(e)) by {
                    if init_error_ok(e) && buf@ == enc_init_error(e) {
                        lemma_init_error_frames(e, buf@);
                    }
                }
            }
            return Err(DecodeError::Eof);
        },
        Some((t, _)) => t,
    };
    proof {
        assert forall|e: InitError|
            init_error_ok(e) && buf@ == #[trigger] enc_init_error(e) implies tag_of_init_error(e)
            == tag && tag <= 2 by {
            lemma_init_error_frames(e, buf@);
            assert(buf@.subrange(0, 4) =~= u32_le(tag));
            crate::codec::lemma_u32_le_injective(tag_of_init_error(e), tag);
            lemma_variant_of_tag(e);
        }
    }
    if tag == 0 {
        proof {
            assert forall|e: InitError|
                init_error_ok(e) && buf@ == #[trigger] enc_init_error(e) implies (
            e matches InitError::Panic(m) && 4 + enc_text(m@).len() <= buf@.len()
                && buf@.subrange(4, 4 + enc_text(m@).len() as int) == enc_text(m@)) by {
                lemma_variant_of_tag(e);
                lemma_init_error_frames(e, buf@);
            }
        }
        match read_text(buf, 4) {
            Err(e) => Err(e),
            Ok((m, end)) => {
                if end != buf.len() {
                    Err(DecodeError::Trailing)
                } else {
                    assert(buf@ =~= u32_le(0) + enc_text(m@));
                    Ok(InitError::Panic(m))
                }
            },
        }
    } else if tag == 1 {
        proof {
            assert forall|e: InitError|
                init_error_ok(e) && buf@ == #[trigger] enc_init_error(e) implies (
            e matches InitError::Argument(n0, w0) && 4 + enc_text(n0@).len() <= buf@.len()
                && buf@.subrange(4, 4 + enc_text(n0@).len() as int) == enc_text(n0@)) by {
                lemma_variant_of_tag(e);
                lemma_init_error_frames(e, buf@);
            }
        }
        match read_text(buf, 4) {
            Err(e) => Err(e),
            Ok((name, mid)) => {
                proof {
                    assert forall|e: InitError|
                        init_error_ok(e) && buf@ == #[trigger] enc_init_error(e) implies (
                    e matches InitError::Argument(n0, w0) && name@ == n0@ && mid == 4 + enc_text(
                        n0@).len() && mid + enc_text(w0@).len() <= buf@.len() && buf@.subrange(
                        mid as int, mid + enc_text(w0@).len() as int) == enc_text(w0@)) by {
                        lemma_variant_of_tag(e);
                        lemma_init_error_frames(e, buf@);
                    }
                }
                match read_text(buf, mid) {
                    Err(e) => Err(e),
                    Ok((why, end)) => {
                        if end != buf.len() {
                            Err(DecodeError::Trailing)
                        } else {
                            assert(buf@ =~= u32_le(1) + enc_text(name@) + enc_text(why@));
                            Ok(InitError::Argument(name, why))
                        }
                    },
                }
            },
        }
    } else if tag == 2 {
        proof {
            assert forall|e: InitError|
                init_error_ok(e) && buf@ == #[trigger] enc_init_error(e) implies buf@.len()
                == 4 by {
                lemma_variant_of_tag(e);
                lemma_init_error_frames(e, buf@);
            }
        }
        if buf.len() != 4 {
            Err(DecodeError::Trailing)
        } else {
            assert(buf@ =~= u32_le(2));
            Ok(InitError::TooManyArguments)
        }
    } else {
        Err(DecodeError::BadTag)
    }
}

/// A helper for values reconstituted inside the initializer from a kernel
/// handle that the injector duplicated into the target process. The shell
/// around the trampoline wraps the object it rebuilds from the decoded
/// handle value; the user's function unwraps it.
pub struct Shared<T> {
    inner: T,
}

impl<T> Shared<T> {
    /// The wrapped object, for contracts.
    pub closed spec fn value(self) -> T {
        self.inner
    }

    /// Wraps a reconstituted object.
    pub fn new(inner: T) -> (r: Shared<T>)
        ensures
            r.value() == inner,
    {
        Shared { inner }
    }

    /// Unwraps this `Shared` and returns the underlying object.
    pub fn into_inner(self) -> (r: T)
        ensures
            r == self.value(),
    {
        self.inner
    }
}

/// What a trampoline call leaves in its two out-parameters, and the status
/// it returns to the thunk.
#[derive(Clone, Copy, Debug, PartialEq, Eq, Structural)]
pub struct TrampolineOut {
    /// The value stored through the data out-parameter: an address in the
    /// target, or null.
    pub data: u64,
    /// The value stored through the size out-parameter.
    pub size: usize,
    /// The returned status: one for success, zero for failure.
    pub status: usize,
}

/// The success path of the out-parameter protocol: both out-parameters are
/// cleared and the status is one.
pub fn success_out() -> (r: TrampolineOut)
    ensures
        r.data == 0,
        r.size == 0,
        r.status == 1,
{
    TrampolineOut { data: 0, size: 0, status: 1 }
}

/// The error path of the out-parameter protocol: the status is zero, and
/// the out-parameters name the page the error payload was copied to — or
/// stay cleared when no memory could be had for it, degrading to a failure
/// without detail.
pub fn failure_out(payload_addr: u64, payload_len: usize) -> (r: TrampolineOut)
    ensures
        r.status == 0,
        payload_addr == 0 ==> r.data == 0 && r.size == 0,
        payload_addr != 0 ==> r.data == payload_addr && r.size == payload_len,
{
    if payload_addr == 0 {
        TrampolineOut { data: 0, size: 0, status: 0 }
    } else {
        TrampolineOut { data: payload_addr, size: payload_len, status: 0 }
    }
}

/// A frame followed by a rest is determined by the bytes: two well-typed
/// heads of one type with the same continuation bytes are the same value,
/// and leave the same rest.
proof fn lemma_enc_arg_prefix(x: ArgValue, y: ArgValue, r1: Seq<u8>, r2: Seq<u8>)
    requires
        arg_ok(x),
        arg_ok(y),
        arg_type_of(x) == arg_type_of(y),
        enc_arg(x) + r1 == enc_arg(y) + r2,
    ensures
        arg_like(x, y),
        r1 == r2,
{
    broadcast use vstd::utf8::group_utf8_lib;

    let s1 = enc_arg(x);
    let s2 = enc_arg(y);
    let w = s1 + r1;
    assert(s1.len() == s2.len()) by {
        match (x, y) {
            (ArgValue::Text(a), ArgValue::Text(b)) => {
                let la = vstd::utf8::encode_utf8(a@).len() as u64;
                let lb = vstd::utf8::encode_utf8(b@).len() as u64;
                assert(w.subrange(0, 8) =~= u64_le(la));
                assert((s2 + r2).subrange(0, 8) =~= u64_le(lb));
                crate::codec::lemma_u64_le_injective(la, lb);
            },
            (ArgValue::List16(a), ArgValue::List16(b)) => {
                let la = a@.len() as u64;
                let lb = b@.len() as u64;
                assert(w.subrange(0, 8) =~= u64_le(la));
                assert((s2 + r2).subrange(0, 8) =~= u64_le(lb));
                crate::codec::lemma_u64_le_injective(la, lb);
                crate::codec::lemma_i16s_le_len(a@);
                crate::codec::lemma_i16s_le_len(b@);
            },
            _ => {},
        }
    }
    assert(s1 =~= w.subrange(0, s1.len() as int));
    assert(s2 =~= (s2 + r2).subrange(0, s2.len() as int));
    assert(s1 == s2);
    assert(r1 =~= w.subrange(s1.len() as int, w.len() as int));
    assert(r2 =~= (s2 + r2).subrange(s2.len() as int, w.len() as int));
    assert(arg_like(x, y)) by {
        match (x, y) {
            (ArgValue::U32(a), ArgValue::U32(b)) => {
                crate::codec::lemma_u32_le_injective(a, b);
            },
            (ArgValue::U64(a), ArgValue::U64(b)) => {
                crate::codec::lemma_u64_le_injective(a, b);
            },
            (ArgValue::Handle(a), ArgValue::Handle(b)) => {
                crate::codec::lemma_u64_le_injective(a, b);
            },
            (ArgValue::I16(a), ArgValue::I16(b)) => {
                crate::codec::lemma_u16_le_injective(a as u16, b as u16);
                assert(((a as u16) == (b as u16)) ==> a == b) by (bit_vector);
            },
            (ArgValue::Text(a), ArgValue::Text(b)) => {
                let la = vstd::utf8::encode_utf8(a@).len() as u64;
                assert(vstd::utf8::encode_utf8(a@) =~= s1.subrange(8, s1.len() as int));
                assert(vstd::utf8::encode_utf8(b@) =~= s2.subrange(8, s2.len() as int));
                assert(a@ == vstd::utf8::decode_utf8(vstd::utf8::encode_utf8(a@)));
                assert(b@ == vstd::utf8::decode_utf8(vstd::utf8::encode_utf8(b@)));
            },
            (ArgValue::List16(a), ArgValue::List16(b)) => {
                let la = a@.len() as u64;
                let lb = b@.len() as u64;
                assert(s1.subrange(0, 8) =~= u64_le(la));
                assert(s2.subrange(0, 8) =~= u64_le(lb));
                crate::codec::lemma_u64_le_injective(la, lb);
                crate::codec::lemma_i16s_le_len(a@);
                crate::codec::lemma_i16s_le_len(b@);
                assert(crate::codec::i16s_le(a@) =~= s1.subrange(8, s1.len() as int));
                assert(crate::codec::i16s_le(b@) =~= s2.subrange(8, s2.len() as int));
                crate::codec::lemma_i16s_le_injective(a@, b@);
            },
            _ => {},
        }
    }
}

/// The argument stream is unambiguous: two well-typed value lists with the
/// same declared types and the same stream hold the same values.
pub proof fn lemma_args_stream_unambiguous(a: Seq<ArgValue>, b: Seq<ArgValue>, tys: Seq<ArgType>)
    requires
        args_ok(a),
        args_ok(b),
        args_match(a, tys),
        args_match(b, tys),
        enc_args(a) == enc_args(b),
    ensures
        args_like(a, b),
    decreases a.len(),
{
    if a.len() == 0 {
    } else {
        lemma_enc_arg_prefix(a[0], b[0], enc_args(a.drop_first()), enc_args(b.drop_first()));
        assert(args_ok(a.drop_first())) by {
            assert(forall|i: int| 0 <= i < a.drop_first().len() ==> a.drop_first()[i] == a[i + 1]);
        }
        assert(args_ok(b.drop_first())) by {
            assert(forall|i: int| 0 <= i < b.drop_first().len() ==> b.drop_first()[i] == b[i + 1]);
        }
        assert(args_match(a.drop_first(), tys.drop_first()));
        assert(args_match(b.drop_first(), tys.drop_first()));
        lemma_args_stream_unambiguous(a.drop_first(), b.drop_first(), tys.drop_first());
        assert forall|i: int| 0 <= i < a.len() implies arg_like(#[trigger] a[i], b[i]) by {
            if i > 0 {
                assert(arg_like(a.drop_first()[i - 1], b.drop_first()[i - 1]));
            }
        }
    }
}

/// The variant tag an initializer error is written with.
pub open spec fn tag_of_init_error(e: InitError) -> u32 {
    match e {
        InitError::Panic(_) => 0,
        InitError::Argument(_, _) => 1,
        InitError::TooManyArguments => 2,
    }
}

} // verus!
