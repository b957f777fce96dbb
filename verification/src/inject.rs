//! The injector's wire data and decisions.
//!
//! One injection writes a parameter block into the target, starts a
//! remote thread on the deployed thunk, waits, and reads the block back.
//! Everything that can be decided from plain values is here: the packed
//! layout of the parameter block, the pre-flight bitness gate, the
//! staging of the whole remote region for a module, and the dispatch on
//! the remote thread's exit code. The kernel calls between those steps —
//! reserve, write, start, wait, read — happen outside the library and
//! carry these values across.

use crate::codec::{
    lemma_u16s_le_len, push_u16s_le, push_u32_le, push_u64_le, read_u32_le, read_u64_le,
    u16s_le, u32_le, u64_le, DecodeError,
};
use crate::init::{
    decode_init_error, enc_init_error, init_error_like, init_error_ok, ArgValue, InitError,
};
use crate::region::{round_up, zeros, RegionBuilder};
use vstd::prelude::*;

verus! {

/// The remote thread's exit code for a successful injection.
pub const STATUS_SUCCESS: u32 = 0;

/// The exit code when the target's loader refused the module.
pub const STATUS_LOAD_FAILED: u32 = 1;

/// The exit code when the initializer symbol was not found.
pub const STATUS_INIT_NOT_FOUND: u32 = 2;

/// The exit code when the initializer reported failure.
pub const STATUS_INIT_FAILED: u32 = 3;

/// The parameter block's size in the target, padding included.
pub const PARAM_SIZE: usize = 40;

/// The parameter block handed to the remote thread. Every address field
/// holds an address in the target's address space, or null.
#[derive(Clone, Copy, Debug, PartialEq, Eq, Structural)]
pub struct ThreadParam {
    /// The address of the module's zero-terminated wide path.
    pub path_addr: u64,
    /// The address of the initializer's zero-terminated name, or null
    /// when no initializer is to be called.
    pub init_name: u64,
    /// The address of the argument stream; on the error path the
    /// initializer overwrites it with its payload's address.
    pub user_data: u64,
    /// The argument stream's length; on the error path the initializer
    /// overwrites it with its payload's length.
    pub user_len: u64,
    /// The error number the thunk records when a loader primitive fails.
    pub last_error: u32,
}

/// The packed bytes of the block as it stands in the target: the four
/// pointer-width fields, the 32-bit error number, and four zero bytes of
/// padding that complete the native layout.
pub open spec fn param_bytes(p: ThreadParam) -> Seq<u8> {
    u64_le(p.path_addr) + u64_le(p.init_name) + u64_le(p.user_data) + u64_le(p.user_len)
        + u32_le(p.last_error) + zeros(4)
}

/// Serializes a parameter block for the target.
pub fn encode_param(p: &ThreadParam) -> (r: Vec<u8>)
    ensures
        r@ == param_bytes(*p),
        r@.len() == PARAM_SIZE,
{
    let mut out: Vec<u8> = Vec::new();
    push_u64_le(&mut out, p.path_addr);
    push_u64_le(&mut out, p.init_name);
    push_u64_le(&mut out, p.user_data);
    push_u64_le(&mut out, p.user_len);
    push_u32_le(&mut out, p.last_error);
    out.push(0);
    out.push(0);
    out.push(0);
    out.push(0);
    assert(out@ =~= param_bytes(*p));
    out
}

/// Reads a parameter block back from the bytes the target holds.
/// Succeeds exactly on a buffer of the block's size, and returns the
/// one block whose fields have those bytes.
pub fn decode_param(buf: &Vec<u8>) -> (r: Option<ThreadParam>)
    ensures
        r is Some <==> buf@.len() == PARAM_SIZE,
        r matches Some(p) ==> u64_le(p.path_addr) == buf@.subrange(0, 8) && u64_le(p.init_name)
            == buf@.subrange(8, 16) && u64_le(p.user_data) == buf@.subrange(16, 24) && u64_le(
            p.user_len) == buf@.subrange(24, 32) && u32_le(p.last_error) == buf@.subrange(32, 36),
{
    if buf.len() != PARAM_SIZE {
        return None;
    }
    let s = buf.as_slice();
    let (path_addr, _) = read_u64_le(s, 0).unwrap();
    let (init_name, _) = read_u64_le(s, 8).unwrap();
    let (user_data, _) = read_u64_le(s, 16).unwrap();
    let (user_len, _) = read_u64_le(s, 24).unwrap();
    let (last_error, _) = read_u32_le(s, 32).unwrap();
    Some(ThreadParam { path_addr, init_name, user_data, user_len, last_error })
}

/// An error that can occur during the injection process. Error numbers
/// are the operating system's, read where the failure happened: in the
/// target for the load and lookup failures, in this process for `Io`.
#[derive(Debug, Clone, PartialEq)]
pub enum Error {
    /// The target's bitness does not match this process's.
    Bitness,
    /// The target's loader refused the module; the number is the error
    /// the thunk read in the target.
    LoadFailed(u32),
    /// The initializer symbol was not found; the number is the error the
    /// thunk read in the target.
    InitNotFound(u32),
    /// The initializer reported failure, with its decoded payload, or
    /// without one when it left none.
    InitError(Option<InitError>),
    /// The initializer's error payload could not be decoded.
    Deserialize(DecodeError),
    /// The remote thread returned an exit code outside the defined set.
    UnexpectedExitCode(u32),
    /// A kernel call failed in this process, with its error number.
    Io(u32),
}

/// The pre-flight architecture gate: whether a process of this bitness
/// may inject into the target, decided before any remote state is
/// touched. A 64-bit injector may only target a native 64-bit process;
/// a 32-bit injector may target any process on a 32-bit host, and only
/// a WOW64 process on a 64-bit host.
pub fn check_bitness(injector_is_64: bool, native_is_64: bool, target_is_wow64: bool) -> (r:
    Result<(), Error>)
    ensures
        r is Ok <==> (if injector_is_64 {
            !target_is_wow64
        } else {
            !native_is_64 || target_is_wow64
        }),
        r is Err ==> r == Err::<(), Error>(Error::Bitness),
{
    let ok = if injector_is_64 {
        !target_is_wow64
    } else {
        !native_is_64 || target_is_wow64
    };
    if ok {
        Ok(())
    } else {
        Err(Error::Bitness)
    }
}

/// One stored initializer argument: bytes serialized when the argument
/// was added, or a handle to be duplicated into the target at injection
/// time.
#[derive(Debug, Clone)]
pub enum InitArg {
    /// A pre-serialized frame.
    Serialized(Vec<u8>),
    /// A kernel handle value from this process, awaiting duplication.
    Handle(u64),
}

/// The model of one stored argument, for contracts.
pub enum ArgSlot {
    /// The bytes of a pre-serialized frame.
    Blob(Seq<u8>),
    /// A handle value from this process, awaiting duplication.
    Handle(u64),
}

/// The models of a stored argument list.
pub open spec fn slots_of(l: Seq<InitArg>) -> Seq<ArgSlot> {
    l.map_values(
        |a: InitArg|
            match a {
                InitArg::Serialized(d) => ArgSlot::Blob(d@),
                InitArg::Handle(h) => ArgSlot::Handle(h),
            },
    )
}

/// The handle values among the stored arguments, in order. These are the
/// handles the injector must duplicate into the target, one by one,
/// before it can build the argument stream.
pub open spec fn handles_of(sl: Seq<ArgSlot>) -> Seq<u64>
    decreases sl.len(),
{
    if sl.len() == 0 {
        Seq::empty()
    } else {
        match sl[0] {
            ArgSlot::Blob(_) => handles_of(sl.drop_first()),
            ArgSlot::Handle(h) => seq![h] + handles_of(sl.drop_first()),
        }
    }
}

/// The argument stream the target reads: each serialized frame as it
/// stands, and for each handle argument the duplicated target-side
/// handle value, written with the width of a target pointer. `dups`
/// holds the duplicated values, in the order of the handle arguments.
pub open spec fn stream_of(sl: Seq<ArgSlot>, dups: Seq<u64>) -> Seq<u8>
    decreases sl.len(),
{
    if sl.len() == 0 {
        Seq::empty()
    } else {
        match sl[0] {
            ArgSlot::Blob(d) => d + stream_of(sl.drop_first(), dups),
            ArgSlot::Handle(_) => u64_le(dups.first()) + stream_of(
                sl.drop_first(),
                dups.drop_first(),
            ),
        }
    }
}

/// The stream's length, which depends on the arguments alone.
pub open spec fn stream_len(sl: Seq<ArgSlot>) -> nat
    decreases sl.len(),
{
    if sl.len() == 0 {
        0
    } else {
        (match sl[0] {
            ArgSlot::Blob(d) => d.len(),
            ArgSlot::Handle(_) => 8,
        }) + stream_len(sl.drop_first())
    }
}

/// With one duplicated value per handle argument, the stream is as long
/// as its length says.
pub proof fn lemma_stream_of_len(sl: Seq<ArgSlot>, dups: Seq<u64>)
    requires
        handles_of(sl).len() <= dups.len(),
    ensures
        stream_of(sl, dups).len() == stream_len(sl),
    decreases sl.len(),
{
    if sl.len() > 0 {
        match sl[0] {
            ArgSlot::Blob(_) => {
                lemma_stream_of_len(sl.drop_first(), dups);
            },
            ArgSlot::Handle(_) => {
                lemma_stream_of_len(sl.drop_first(), dups.drop_first());
            },
        }
    }
}

/// A description of a module to be injected into a process: the path to
/// load it from, and optionally the name of an initializer to call after
/// the load, with that initializer's arguments.
#[derive(Debug, Clone)]
pub struct Module {
    path: Vec<u16>,
    init: Option<(Vec<u8>, Vec<InitArg>)>,
}

/// A module builder for a module without an initialization function.
#[derive(Debug, Clone)]
pub struct ModuleBuilder {
    path: Vec<u16>,
}

/// A module builder for a module with an initialization function.
#[derive(Debug, Clone)]
pub struct ModuleBuilderWithInit {
    path: Vec<u16>,
    init: Vec<u8>,
    args: Vec<InitArg>,
}

impl ModuleBuilder {
    /// The zero-terminated wide path, for contracts.
    pub closed spec fn path_units(self) -> Seq<u16> {
        self.path@
    }

    /// Starts a module description from the module's wide path on the
    /// target's filesystem; a terminating zero code unit is appended.
    pub fn new(path: &Vec<u16>) -> (r: ModuleBuilder)
        ensures
            r.path_units() == path@ + seq![0u16],
    {
        let mut p: Vec<u16> = Vec::new();
        let mut i: usize = 0;
        while i < path.len()
            invariant
                i <= path@.len(),
                p@ == path@.take(i as int),
            decreases path@.len() - i,
        {
            p.push(path[i]);
            assert(p@ =~= path@.take(i + 1));
            i = i + 1;
        }
        assert(path@.take(path@.len() as int) =~= path@);
        p.push(0);
        assert(p@ =~= path@ + seq![0u16]);
        ModuleBuilder { path: p }
    }

    /// Call the given initializer function after loading the module; a
    /// terminating zero byte is appended to its name. Arguments can be
    /// added by calling `arg` or `handle` on the result.
    pub fn init(self, name: &Vec<u8>) -> (r: ModuleBuilderWithInit)
        ensures
            r.path_units() == self.path_units(),
            r.name_bytes() == name@ + seq![0u8],
            r.arg_slots() == Seq::<ArgSlot>::empty(),
    {
        let mut n: Vec<u8> = Vec::new();
        let mut i: usize = 0;
        while i < name.len()
            invariant
                i <= name@.len(),
                n@ == name@.take(i as int),
            decreases name@.len() - i,
        {
            n.push(name[i]);
            assert(n@ =~= name@.take(i + 1));
            i = i + 1;
        }
        assert(name@.take(name@.len() as int) =~= name@);
        n.push(0);
        assert(n@ =~= name@ + seq![0u8]);
        let r = ModuleBuilderWithInit { path: self.path, init: n, args: Vec::new() };
        assert(r.arg_slots() =~= Seq::<ArgSlot>::empty());
        r
    }

    /// Constructs a module and consumes this builder.
    pub fn unwrap(self) -> (m: Module)
        ensures
            m.path_units() == self.path_units(),
            !m.has_init(),
    {
        Module { path: self.path, init: None }
    }
}

impl ModuleBuilderWithInit {
    /// The zero-terminated wide path, for contracts.
    pub closed spec fn path_units(self) -> Seq<u16> {
        self.path@
    }

    /// The zero-terminated initializer name, for contracts.
    pub closed spec fn name_bytes(self) -> Seq<u8> {
        self.init@
    }

    /// The stored arguments, for contracts.
    pub closed spec fn arg_slots(self) -> Seq<ArgSlot> {
        slots_of(self.args@)
    }

    /// Adds an argument to the initializer invocation, serialized now
    /// into its frame.
    pub fn arg(self, a: &crate::init::ArgValue) -> (r: ModuleBuilderWithInit)
        ensures
            r.path_units() == self.path_units(),
            r.name_bytes() == self.name_bytes(),
            crate::init::arg_ok(*a),
            r.arg_slots() == self.arg_slots() + seq![ArgSlot::Blob(crate::init::enc_arg(*a))],
    {
        let mut data: Vec<u8> = Vec::new();
        crate::init::push_arg(&mut data, a);
        let mut args = self.args;
        let ghost pre = args@;
        args.push(InitArg::Serialized(data));
        proof {
            assert(args@ =~= pre + seq![args@.last()]);
            assert(slots_of(args@) =~= slots_of(pre) + seq![ArgSlot::Blob(crate::init::enc_arg(
                *a))]);
        }
        ModuleBuilderWithInit { path: self.path, init: self.init, args }
    }

    /// Adds a handle argument to the initializer invocation. The handle
    /// value is duplicated into the target at injection time and reaches
    /// the initializer as a target-side handle; a parameter of type
    /// `Shared` receives it there.
    pub fn handle(self, h: u64) -> (r: ModuleBuilderWithInit)
        ensures
            r.path_units() == self.path_units(),
            r.name_bytes() == self.name_bytes(),
            r.arg_slots() == self.arg_slots() + seq![ArgSlot::Handle(h)],
    {
        let mut args = self.args;
        let ghost pre = args@;
        args.push(InitArg::Handle(h));
        proof {
            assert(args@ =~= pre + seq![args@.last()]);
            assert(slots_of(args@) =~= slots_of(pre) + seq![ArgSlot::Handle(h)]);
        }
        ModuleBuilderWithInit { path: self.path, init: self.init, args }
    }

    /// Constructs a module and consumes this builder.
    pub fn unwrap(self) -> (m: Module)
        ensures
            m.path_units() == self.path_units(),
            m.has_init(),
            m.name_bytes() == self.name_bytes(),
            m.arg_slots() == self.arg_slots(),
    {
        Module { path: self.path, init: Some((self.init, self.args)) }
    }
}

impl Module {
    /// The zero-terminated wide path, for contracts.
    pub closed spec fn path_units(self) -> Seq<u16> {
        self.path@
    }

    /// Whether an initializer is to be called.
    pub closed spec fn has_init(self) -> bool {
        self.init is Some
    }

    /// The zero-terminated initializer name, for contracts.
    pub closed spec fn name_bytes(self) -> Seq<u8> {
        match self.init {
            Some((n, _)) => n@,
            None => Seq::empty(),
        }
    }

    /// The stored arguments, for contracts.
    pub closed spec fn arg_slots(self) -> Seq<ArgSlot> {
        match self.init {
            Some((_, a)) => slots_of(a@),
            None => Seq::empty(),
        }
    }

    /// Creates a new module definition builder given the wide path to a
    /// module.
    pub fn new(path: &Vec<u16>) -> (r: ModuleBuilder)
        ensures
            r.path_units() == path@ + seq![0u16],
    {
        ModuleBuilder::new(path)
    }
}

/// The handle values of a concatenation are the concatenated handle
/// values.
proof fn lemma_handles_of_concat(a: Seq<ArgSlot>, b: Seq<ArgSlot>)
    ensures
        handles_of(a + b) == handles_of(a) + handles_of(b),
    decreases a.len(),
{
    if a.len() == 0 {
        assert(a + b =~= b);
        assert(handles_of(a) + handles_of(b) =~= handles_of(b));
    } else {
        assert((a + b)[0] == a[0]);
        assert((a + b).drop_first() =~= a.drop_first() + b);
        lemma_handles_of_concat(a.drop_first(), b);
        assert(handles_of(a + b) =~= handles_of(a) + handles_of(b));
    }
}

/// The handle values among a list with one slot in front.
proof fn lemma_handles_of_cons(a: ArgSlot, x: Seq<ArgSlot>)
    ensures
        a matches ArgSlot::Blob(_) ==> handles_of(seq![a] + x) == handles_of(x),
        a matches ArgSlot::Handle(h) ==> handles_of(seq![a] + x) == seq![h] + handles_of(x),
{
    assert((seq![a] + x)[0] == a);
    assert((seq![a] + x).drop_first() =~= x);
}

/// Handle passthrough, on the library's side: a module's argument stream
/// is exactly the argument stream of the values the initializer decodes,
/// in which every handle argument has become the duplicated target-side
/// handle value standing at its position. What the initializer observes
/// for the handle at position `i` is therefore the `i`-th duplicated
/// value, nothing else; that the duplicate names the same kernel object
/// as the source handle is the kernel's promise at duplication time.
pub proof fn lemma_handle_passthrough(sl: Seq<ArgSlot>, vals: Seq<ArgValue>, dups: Seq<u64>)
    requires
        sl.len() == vals.len(),
        dups.len() == handles_of(sl).len(),
        forall|i: int|
            0 <= i < sl.len() ==> ((#[trigger] sl[i]) matches ArgSlot::Blob(d) ==> d
                == crate::init::enc_arg(vals[i])),
        forall|i: int|
            0 <= i < sl.len() ==> ((#[trigger] sl[i]) matches ArgSlot::Handle(_) ==> vals[i]
                == ArgValue::Handle(dups[handles_of(sl.take(i)).len() as int])),
    ensures
        stream_of(sl, dups) == crate::init::enc_args(vals),
    decreases sl.len(),
{
    if sl.len() == 0 {
        assert(stream_of(sl, dups) =~= Seq::<u8>::empty());
        assert(crate::init::enc_args(vals) =~= Seq::<u8>::empty());
    } else {
        let slt = sl.drop_first();
        let valst = vals.drop_first();
        assert(sl =~= seq![sl[0]] + slt);
        lemma_handles_of_cons(sl[0], slt);
        assert(sl.take(0) =~= Seq::<ArgSlot>::empty());
        assert(handles_of(Seq::<ArgSlot>::empty()) =~= Seq::<u64>::empty());
        match sl[0] {
            ArgSlot::Blob(d) => {
                assert(d == crate::init::enc_arg(vals[0]));
                assert forall|i: int| 0 <= i < slt.len() implies ((#[trigger] slt[i])
                    matches ArgSlot::Blob(d2) ==> d2 == crate::init::enc_arg(valst[i])) && ((
                slt[i]) matches ArgSlot::Handle(_) ==> valst[i] == ArgValue::Handle(
                    dups[handles_of(slt.take(i)).len() as int])) by {
                    assert(slt[i] == sl[i + 1]);
                    assert(valst[i] == vals[i + 1]);
                    assert(sl.take(i + 1) =~= seq![sl[0]] + slt.take(i));
                    lemma_handles_of_cons(sl[0], slt.take(i));
                }
                lemma_handle_passthrough(slt, valst, dups);
                assert(stream_of(sl, dups) == d + stream_of(slt, dups));
                assert(crate::init::enc_args(vals) == crate::init::enc_arg(vals[0])
                    + crate::init::enc_args(valst));
            },
            ArgSlot::Handle(_) => {
                assert(vals[0] == ArgValue::Handle(dups[0]));
                assert(dups[0] == dups.first());
                let dupst = dups.drop_first();
                assert forall|i: int| 0 <= i < slt.len() implies ((#[trigger] slt[i])
                    matches ArgSlot::Blob(d2) ==> d2 == crate::init::enc_arg(valst[i])) && ((
                slt[i]) matches ArgSlot::Handle(_) ==> valst[i] == ArgValue::Handle(
                    dupst[handles_of(slt.take(i)).len() as int])) by {
                    assert(slt[i] == sl[i + 1]);
                    assert(valst[i] == vals[i + 1]);
                    assert(sl.take(i + 1) =~= seq![sl[0]] + slt.take(i));
                    lemma_handles_of_cons(sl[0], slt.take(i));
                    if slt[i] is Handle {
                        let k = handles_of(slt.take(i)).len() as int;
                        assert(handles_of(sl.take(i + 1)).len() == k + 1);
                        assert(sl =~= sl.take(i + 1) + sl.skip(i + 1));
                        lemma_handles_of_concat(sl.take(i + 1), sl.skip(i + 1));
                        assert(sl.skip(i + 1)[0] == sl[i + 1]);
                        assert(handles_of(sl.skip(i + 1)).len() >= 1);
                        assert(k + 1 < dups.len());
                        assert(dupst[k] == dups[k + 1]);
                    }
                }
                lemma_handle_passthrough(slt, valst, dupst);
                assert(stream_of(sl, dups) == u64_le(dups.first()) + stream_of(slt, dupst));
                assert(crate::init::enc_args(vals) == crate::init::enc_arg(vals[0])
                    + crate::init::enc_args(valst));
            },
        }
    }
}

/// The parameter block a module materializes to, given the base address
/// its region will occupy in the target.
pub open spec fn materialized_param(m: Module, base: u64) -> ThreadParam {
    ThreadParam {
        path_addr: base,
        init_name: if m.has_init() {
            (base + 2 * m.path_units().len()) as u64
        } else {
            0
        },
        user_data: if m.has_init() {
            (base + 2 * m.path_units().len() + m.name_bytes().len()) as u64
        } else {
            0
        },
        user_len: if m.has_init() {
            stream_len(m.arg_slots()) as u64
        } else {
            0
        },
        last_error: 0,
    }
}

/// How many bytes the module's remote region occupies: the wide path,
/// then — when an initializer is set — its name and the argument stream,
/// then the parameter block at pointer alignment.
pub open spec fn region_len(m: Module) -> int {
    round_up(
        (2 * m.path_units().len() + (if m.has_init() {
            m.name_bytes().len() + stream_len(m.arg_slots())
        } else {
            0
        })) as int,
        8,
    ) + PARAM_SIZE
}

/// Builds the argument stream: each serialized frame as it stands, and
/// for each handle argument the next duplicated target-side value.
fn build_stream(args: &Vec<InitArg>, dups: &Vec<u64>) -> (r: Vec<u8>)
    requires
        dups@.len() == handles_of(slots_of(args@)).len(),
    ensures
        r@ == stream_of(slots_of(args@), dups@),
{
    let ghost sl = slots_of(args@);
    let dcount = dups.len();
    let mut out: Vec<u8> = Vec::new();
    let mut i: usize = 0;
    let mut j: usize = 0;
    proof {
        assert(sl.skip(0) =~= sl);
        assert(dups@.skip(0) =~= dups@);
    }
    while i < args.len()
        invariant
            i <= args@.len() == sl.len(),
            j <= dups@.len() == dcount,
            sl == slots_of(args@),
            j + handles_of(sl.skip(i as int)).len() == dups@.len(),
            stream_of(sl, dups@) == out@ + stream_of(sl.skip(i as int), dups@.skip(j as int)),
        decreases args@.len() - i,
    {
        let ghost tail = sl.skip(i as int);
        proof {
            assert(tail[0] == sl[i as int]);
            assert(tail.drop_first() =~= sl.skip(i + 1));
        }
        match &args[i] {
            InitArg::Serialized(d) => {
                let ghost pre = out@;
                let mut k: usize = 0;
                while k < d.len()
                    invariant
                        k <= d@.len(),
                        out@ == pre + d@.take(k as int),
                    decreases d@.len() - k,
                {
                    out.push(d[k]);
                    assert(out@ =~= pre + d@.take(k + 1));
                    k = k + 1;
                }
                assert(d@.take(d@.len() as int) =~= d@);
                proof {
                    assert(sl[i as int] == ArgSlot::Blob(d@));
                    assert(stream_of(tail, dups@.skip(j as int)) == d@ + stream_of(
                        sl.skip(i + 1), dups@.skip(j as int)));
                }
            },
            InitArg::Handle(_) => {
                proof {
                    assert(handles_of(tail).len() >= 1);
                    assert(j < dups@.len());
                }
                let w = dups[j];
                push_u64_le(&mut out, w);
                proof {
                    assert(dups@.skip(j as int).first() == dups@[j as int]);
                    assert(dups@.skip(j as int).drop_first() =~= dups@.skip(j + 1));
                    assert(stream_of(tail, dups@.skip(j as int)) == u64_le(w) + stream_of(
                        sl.skip(i + 1), dups@.skip(j + 1)));
                }
                j = j + 1;
            },
        }
        i = i + 1;
    }
    proof {
        assert(sl.skip(sl.len() as int) =~= Seq::<ArgSlot>::empty());
        assert(stream_of(Seq::<ArgSlot>::empty(), dups@.skip(j as int)) =~= Seq::<u8>::empty());
        assert(out@ =~= stream_of(sl, dups@));
    }
    out
}

impl Module {
    /// The handles the injector must duplicate into the target for this
    /// module, in argument order.
    pub fn handle_values(&self) -> (r: Vec<u64>)
        ensures
            r@ == handles_of(self.arg_slots()),
    {
        let mut out: Vec<u64> = Vec::new();
        match &self.init {
            Option::None => {
                assert(handles_of(self.arg_slots()) =~= Seq::<u64>::empty());
            },
            Option::Some((_, args)) => {
                let ghost sl = slots_of(args@);
                let mut i: usize = 0;
                proof {
                    assert(sl.skip(0) =~= sl);
                }
                while i < args.len()
                    invariant
                        i <= args@.len() == sl.len(),
                        sl == slots_of(args@),
                        handles_of(sl) == out@ + handles_of(sl.skip(i as int)),
                    decreases args@.len() - i,
                {
                    let ghost tail = sl.skip(i as int);
                    proof {
                        assert(tail[0] == sl[i as int]);
                        assert(tail.drop_first() =~= sl.skip(i + 1));
                    }
                    match &args[i] {
                        InitArg::Serialized(_) => {
                            assert(handles_of(tail) == handles_of(sl.skip(i + 1)));
                        },
                        InitArg::Handle(h) => {
                            out.push(*h);
                            assert(out@.drop_last() + seq![*h] =~= out@);
                            assert(handles_of(tail) == seq![*h] + handles_of(sl.skip(i + 1)));
                        },
                    }
                    i = i + 1;
                }
                proof {
                    assert(sl.skip(sl.len() as int) =~= Seq::<u64>::empty().map_values(
                        |x: u64| ArgSlot::Handle(x)).take(0));
                    assert(sl.skip(sl.len() as int) =~= Seq::<ArgSlot>::empty());
                    assert(handles_of(Seq::<ArgSlot>::empty()) =~= Seq::<u64>::empty());
                    assert(out@ =~= handles_of(sl));
                }
            },
        }
        out
    }

    /// How many bytes this module's remote region occupies, or nothing
    /// when that count does not fit the address arithmetic.
    pub fn region_size(&self) -> (r: Option<usize>)
        ensures
            r matches Some(n) ==> n as int == region_len(*self),
            r is None <==> region_len(*self) > usize::MAX,
    {
        let limit: u128 = usize::MAX as u128;
        let mut body: u128 = (self.path.len() as u128) * 2;
        proof {
            assert(body == 2 * self.path_units().len());
        }
        if body > limit {
            assert(region_len(*self) > usize::MAX) by {
                crate::region::lemma_round_up(
                    2 * self.path_units().len() + (if self.has_init() {
                        self.name_bytes().len() + stream_len(self.arg_slots())
                    } else {
                        0
                    }) as int,
                    8,
                );
            }
            return None;
        }
        match &self.init {
            Option::None => {},
            Option::Some((name, args)) => {
                body = body + (name.len() as u128);
                if body > limit {
                    assert(region_len(*self) > usize::MAX) by {
                        crate::region::lemma_round_up(
                            (2 * self.path_units().len() + self.name_bytes().len() + stream_len(
                                self.arg_slots())) as int,
                            8,
                        );
                        lemma_stream_len_nonneg(self.arg_slots());
                    }
                    return None;
                }
                let ghost sl = slots_of(args@);
                let mut i: usize = 0;
                proof {
                    assert(sl.skip(0) =~= sl);
                }
                while i < args.len()
                    invariant
                        i <= args@.len() == sl.len(),
                        sl == slots_of(args@),
                        body <= limit,
                        limit == usize::MAX,
                        body + stream_len(sl.skip(i as int)) == 2 * self.path_units().len()
                            + self.name_bytes().len() + stream_len(sl),
                        self.has_init(),
                        self.name_bytes().len() + stream_len(sl) == (if self.has_init() {
                            self.name_bytes().len() + stream_len(self.arg_slots())
                        } else {
                            0
                        }),
                    decreases args@.len() - i,
                {
                    let ghost tail = sl.skip(i as int);
                    proof {
                        assert(tail[0] == sl[i as int]);
                        assert(tail.drop_first() =~= sl.skip(i + 1));
                    }
                    let step: u128 = match &args[i] {
                        InitArg::Serialized(d) => d.len() as u128,
                        InitArg::Handle(_) => 8,
                    };
                    proof {
                        lemma_stream_len_nonneg(sl.skip(i + 1));
                        assert(stream_len(tail) == step + stream_len(sl.skip(i + 1)));
                    }
                    body = body + step;
                    if body > limit {
                        assert(region_len(*self) > usize::MAX) by {
                            crate::region::lemma_round_up(
                                (2 * self.path_units().len() + self.name_bytes().len()
                                    + stream_len(sl)) as int,
                                8,
                            );
                        }
                        return None;
                    }
                    i = i + 1;
                }
                proof {
                    assert(sl.skip(sl.len() as int) =~= Seq::<ArgSlot>::empty());
                    assert(stream_len(Seq::<ArgSlot>::empty()) == 0);
                }
            },
        }
        let pad: u128 = (8 - body % 8) % 8;
        let total: u128 = body + pad + (PARAM_SIZE as u128);
        proof {
            assert(body + pad == round_up(body as int, 8));
            crate::region::lemma_round_up(body as int, 8);
        }
        if total > limit {
            return None;
        }
        Some(total as usize)
    }

    /// Materializes the module's remote region against the base address
    /// it will occupy in the target: the wide path at the base, then —
    /// when an initializer is set — the zero-terminated name and the
    /// argument stream, then, at pointer alignment, the parameter block
    /// whose address fields point into the region. The staged image and
    /// the block's offset within it are returned; `dups` holds the
    /// target-side values of the duplicated handle arguments, in order.
    pub fn materialize(&self, base: u64, dups: &Vec<u64>) -> (r: (Vec<u8>, usize))
        requires
            dups@.len() == handles_of(self.arg_slots()).len(),
            base as int % 8 == 0,
            base as int + region_len(*self) <= u64::MAX,
            region_len(*self) <= usize::MAX,
        ensures
            r.0@.len() == region_len(*self),
            r.1 as int == region_len(*self) - PARAM_SIZE,
            r.0@.subrange(0, 2 * self.path_units().len() as int) == u16s_le(self.path_units()),
            self.has_init() ==> r.0@.subrange(
                2 * self.path_units().len() as int,
                (2 * self.path_units().len() + self.name_bytes().len()) as int,
            ) == self.name_bytes(),
            self.has_init() ==> r.0@.subrange(
                (2 * self.path_units().len() + self.name_bytes().len()) as int,
                (2 * self.path_units().len() + self.name_bytes().len() + stream_len(
                    self.arg_slots(),
                )) as int,
            ) == stream_of(self.arg_slots(), dups@),
            r.0@.subrange(r.1 as int, r.1 + PARAM_SIZE) == param_bytes(
                materialized_param(*self, base),
            ),
    {
        proof {
            lemma_stream_len_nonneg(self.arg_slots());
            crate::region::lemma_round_up(
                2 * self.path_units().len() + (if self.has_init() {
                    self.name_bytes().len() + stream_len(self.arg_slots())
                } else {
                    0
                }) as int,
                8,
            );
        }
        let mut pathb: Vec<u8> = Vec::new();
        push_u16s_le(&mut pathb, &self.path);
        proof {
            lemma_u16s_le_len(self.path_units());
        }
        let mut rb = RegionBuilder::new();
        let off0 = rb.write_bytes(&pathb, 2);
        proof {
            assert(off0 == 0);
            assert(rb@ =~= u16s_le(self.path_units()));
        }
        let (pm, poff) = match &self.init {
            Option::None => {
                let pm = ThreadParam {
                    path_addr: base,
                    init_name: 0,
                    user_data: 0,
                    user_len: 0,
                    last_error: 0,
                };
                let pb = encode_param(&pm);
                let ghost v1 = rb@;
                let poff = rb.write_bytes(&pb, 8);
                proof {
                    assert(rb@.subrange(0, v1.len() as int) =~= v1);
                }
                (pm, poff)
            },
            Option::Some((name, args)) => {
                let ghost v1 = rb@;
                let noff = rb.write_bytes(name, 1);
                proof {
                    crate::region::lemma_round_up(v1.len() as int, 1);
                    assert(noff == 2 * self.path_units().len());
                    assert(rb@ =~= v1 + name@);
                    assert(rb@.subrange(0, v1.len() as int) =~= v1);
                    assert(self.name_bytes() == name@);
                }
                let stream = build_stream(args, dups);
                let ghost v2 = rb@;
                let aoff = rb.write_bytes(&stream, 1);
                proof {
                    crate::region::lemma_round_up(v2.len() as int, 1);
                    assert(aoff == 2 * self.path_units().len() + self.name_bytes().len());
                    assert(rb@ =~= v2 + stream@);
                    assert(rb@.subrange(0, v2.len() as int) =~= v2);
                    lemma_stream_of_len(self.arg_slots(), dups@);
                }
                let pm = ThreadParam {
                    path_addr: base,
                    init_name: base + (noff as u64),
                    user_data: base + (aoff as u64),
                    user_len: stream.len() as u64,
                    last_error: 0,
                };
                let pb = encode_param(&pm);
                let ghost v3 = rb@;
                let poff = rb.write_bytes(&pb, 8);
                proof {
                    assert(rb@.subrange(0, v3.len() as int) =~= v3);
                }
                (pm, poff)
            },
        };
        proof {
            assert(pm == materialized_param(*self, base));
        }
        let bytes = rb.into_bytes();
        proof {
            let p2 = 2 * self.path_units().len() as int;
            assert(bytes@.subrange(0, p2) =~= u16s_le(self.path_units()));
            if self.has_init() {
                let nl = self.name_bytes().len() as int;
                let slen = stream_len(self.arg_slots()) as int;
                assert(bytes@.subrange(p2, p2 + nl) =~= self.name_bytes());
                assert(bytes@.subrange(p2 + nl, p2 + nl + slen) =~= stream_of(
                    self.arg_slots(), dups@));
            }
        }
        (bytes, poff)
    }
}

/// The stream's length never goes below nothing.
pub proof fn lemma_stream_len_nonneg(sl: Seq<ArgSlot>)
    ensures
        stream_len(sl) >= 0,
{
}

/// Dispatches on what one injection left behind: the remote thread's
/// exit code and the parameter block read back from the target.
/// `payload` holds the bytes read from the target at the block's data
/// address when the block names a payload; it is consulted only then.
/// Success is returned exactly for the success exit code; every other
/// defined code carries the detail the block reports, and an undefined
/// code is surfaced as unexpected.
pub fn decode_outcome(exit_code: u32, param: &ThreadParam, payload: Option<&Vec<u8>>) -> (r:
    Result<(), Error>)
    requires
        exit_code == STATUS_INIT_FAILED && param.user_data != 0 && param.user_len != 0
            ==> payload is Some,
    ensures
        r is Ok <==> exit_code == STATUS_SUCCESS,
        exit_code == STATUS_LOAD_FAILED ==> r == Err::<(), Error>(Error::LoadFailed(
            param.last_error)),
        exit_code == STATUS_INIT_NOT_FOUND ==> r == Err::<(), Error>(Error::InitNotFound(
            param.last_error)),
        exit_code == STATUS_INIT_FAILED && (param.user_data == 0 || param.user_len == 0) ==> r
            == Err::<(), Error>(Error::InitError(None)),
        exit_code == STATUS_INIT_FAILED && param.user_data != 0 && param.user_len != 0 ==> ((
        r matches Err(Error::InitError(Some(e))) ==> init_error_ok(e) && payload->0@
            == enc_init_error(e)) && (forall|e: InitError|
            init_error_ok(e) && payload->0@ == #[trigger] enc_init_error(e) ==> (r matches Err(
                Error::InitError(Some(d))) && init_error_like(d, e))) && (r matches Err(
            Error::Deserialize(_)) || r matches Err(Error::InitError(Some(_))))),
        !(exit_code == STATUS_SUCCESS || exit_code == STATUS_LOAD_FAILED || exit_code
            == STATUS_INIT_NOT_FOUND || exit_code == STATUS_INIT_FAILED) ==> r == Err::<(),
            Error>(Error::UnexpectedExitCode(exit_code)),
{
    if exit_code == STATUS_SUCCESS {
        Ok(())
    } else if exit_code == STATUS_LOAD_FAILED {
        Err(Error::LoadFailed(param.last_error))
    } else if exit_code == STATUS_INIT_NOT_FOUND {
        Err(Error::InitNotFound(param.last_error))
    } else if exit_code == STATUS_INIT_FAILED {
        if param.user_data == 0 || param.user_len == 0 {
            Err(Error::InitError(None))
        } else {
            let bytes = payload.unwrap();
            match decode_init_error(bytes.as_slice()) {
                Ok(e) => Err(Error::InitError(Some(e))),
                Err(d) => Err(Error::Deserialize(d)),
            }
        }
    } else {
        Err(Error::UnexpectedExitCode(exit_code))
    }
}

} // verus!
