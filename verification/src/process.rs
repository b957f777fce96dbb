//! The suspended-spawn pipeline's builder.
//!
//! `Command` gathers everything a child process is created from: the
//! program, its arguments, an optional environment map, an optional
//! working directory, the modules to inject before the child's own entry
//! point runs, and what to do with each standard stream. All of that is
//! plain data, and the wire forms the kernel call takes — the quoted
//! command line, the environment block, the directory string — are built
//! and specified here. The call itself, the pipes, the inheritable-handle
//! list and the suspend-inject-resume dance happen outside the library
//! around this builder.

use crate::cmdline::{cmdline, make_command_line, NUL};
use crate::envblock::{
    env_block, env_pairs, make_dir_block, make_env_block, make_key, upper_key, EnvVar,
};
use crate::inject::Module;
use vstd::prelude::*;

verus! {

/// What to do with one standard stream of the child.
#[derive(Clone, Copy, Debug, PartialEq, Eq, Structural)]
pub enum StdioKind {
    /// Hand the child this raw handle value.
    Raw(u64),
    /// Connect parent and child with a new anonymous pipe.
    MakePipe,
    /// Duplicate the parent's corresponding standard handle.
    Inherit,
    /// Attach the stream to the null device.
    Null,
}

/// Describes what to do with a standard I/O stream for a child process.
#[derive(Clone, Copy, Debug)]
pub struct Stdio {
    kind: StdioKind,
}

impl Stdio {
    /// The chosen treatment, for contracts.
    pub closed spec fn kind(self) -> StdioKind {
        self.kind
    }

    /// A new pipe should be arranged to connect the parent and child
    /// processes.
    pub fn piped() -> (r: Stdio)
        ensures
            r.kind() == StdioKind::MakePipe,
    {
        Stdio { kind: StdioKind::MakePipe }
    }

    /// The child inherits from the corresponding parent descriptor.
    pub fn inherit() -> (r: Stdio)
        ensures
            r.kind() == StdioKind::Inherit,
    {
        Stdio { kind: StdioKind::Inherit }
    }

    /// This stream will be ignored: the equivalent of attaching it to the
    /// null device.
    pub fn null() -> (r: Stdio)
        ensures
            r.kind() == StdioKind::Null,
    {
        Stdio { kind: StdioKind::Null }
    }

    /// The child receives this raw handle value for the stream.
    pub fn from_raw(handle: u64) -> (r: Stdio)
        ensures
            r.kind() == StdioKind::Raw(handle),
    {
        Stdio { kind: StdioKind::Raw(handle) }
    }
}

/// The standard streams of the child, in handle order.
#[derive(Clone, Copy, Debug, PartialEq, Eq, Structural)]
pub enum StdStream {
    /// The child's input stream.
    Stdin,
    /// The child's output stream.
    Stdout,
    /// The child's error stream.
    Stderr,
}

/// Whether the child reads this stream. This decides two set-up details:
/// the null device is opened for the child's reading on the input stream
/// and for its writing on the others, and of a fresh pipe the child gets
/// the read end for input and the write end otherwise.
pub fn child_reads(stream: StdStream) -> (r: bool)
    ensures
        r <==> stream == StdStream::Stdin,
{
    match stream {
        StdStream::Stdin => true,
        StdStream::Stdout => false,
        StdStream::Stderr => false,
    }
}

/// Describes the result of a process after it has terminated.
#[derive(Clone, Copy, Debug, PartialEq, Eq, Structural)]
pub struct ExitStatus {
    code: u32,
}

impl ExitStatus {
    /// The raw exit code, for contracts.
    pub closed spec fn raw(self) -> u32 {
        self.code
    }

    /// Wraps the exit code the kernel reported for a finished process.
    pub fn from_raw(code: u32) -> (r: ExitStatus)
        ensures
            r.raw() == code,
    {
        ExitStatus { code }
    }

    /// Was termination successful? Success is defined as a zero exit
    /// status.
    pub fn success(&self) -> (r: bool)
        ensures
            r <==> self.raw() == 0,
    {
        self.code == 0
    }

    /// Returns the exit code of the process as an `Option`. This always
    /// returns the code in the form of `Some(code)`.
    pub fn code(&self) -> (r: Option<i32>)
        ensures
            r matches Some(c) && c == self.raw() as i32,
    {
        Some(self.code as i32)
    }

    /// Returns the exit code of the process.
    pub fn code_direct(&self) -> (r: i32)
        ensures
            r == self.raw() as i32,
    {
        self.code as i32
    }
}

/// The output of a finished process.
#[derive(Clone, Debug, PartialEq)]
pub struct Output {
    /// The status (exit code) of the process.
    pub status: ExitStatus,
    /// The data that the process wrote to stdout.
    pub stdout: Vec<u8>,
    /// The data that the process wrote to stderr.
    pub stderr: Vec<u8>,
}

/// The index of the first entry with this key, or nothing.
pub open spec fn find_key(l: Seq<(Seq<u16>, Seq<u16>)>, k: Seq<u16>) -> int
    decreases l.len(),
{
    if l.len() == 0 {
        -1
    } else if l[0].0 == k {
        0
    } else {
        let r = find_key(l.drop_first(), k);
        if r == -1 {
            -1
        } else {
            r + 1
        }
    }
}

/// What `find_key` finds is the first match, and nothing only when no
/// entry matches.
pub proof fn lemma_find_key(l: Seq<(Seq<u16>, Seq<u16>)>, k: Seq<u16>)
    ensures
        find_key(l, k) == -1 ==> forall|i: int| 0 <= i < l.len() ==> (#[trigger] l[i]).0 != k,
        find_key(l, k) != -1 ==> 0 <= find_key(l, k) < l.len() && l[find_key(l, k)].0 == k && (
        forall|i: int| 0 <= i < find_key(l, k) ==> (#[trigger] l[i]).0 != k),
    decreases l.len(),
{
    if l.len() == 0 {
    } else if l[0].0 == k {
    } else {
        lemma_find_key(l.drop_first(), k);
        let d = l.drop_first();
        let rd = find_key(d, k);
        assert(forall|i: int| 0 <= i < d.len() ==> #[trigger] d[i] == l[i + 1]);
        if rd == -1 {
            assert(find_key(l, k) == -1);
            assert forall|i: int| 0 <= i < l.len() implies (#[trigger] l[i]).0 != k by {
                if i > 0 {
                    assert(d[i - 1] == l[i]);
                }
            }
        } else {
            assert(find_key(l, k) == rd + 1);
            assert(d[rd] == l[rd + 1]);
            assert forall|i: int| 0 <= i < rd + 1 implies (#[trigger] l[i]).0 != k by {
                if i > 0 {
                    assert(d[i - 1] == l[i]);
                }
            }
        }
    }
}

/// The entries after an insert: the value replaced in place when the key
/// is present, a new entry at the end when it is not.
pub open spec fn upsert(l: Seq<(Seq<u16>, Seq<u16>)>, k: Seq<u16>, v: Seq<u16>) -> Seq<
    (Seq<u16>, Seq<u16>),
> {
    let i = find_key(l, k);
    if i == -1 {
        l.push((k, v))
    } else {
        l.update(i, (k, v))
    }
}

/// The entries after a removal: the matching entry taken out, keeping
/// the order of the rest, or everything unchanged when none matches.
pub open spec fn without_key(l: Seq<(Seq<u16>, Seq<u16>)>, k: Seq<u16>) -> Seq<
    (Seq<u16>, Seq<u16>),
> {
    let i = find_key(l, k);
    if i == -1 {
        l
    } else {
        l.remove(i)
    }
}

/// The environment a list of raw variables seeds, first to last: each
/// key uppercased and inserted, a later entry overriding an earlier one
/// with the same key.
pub open spec fn seeded_env(vars: Seq<(Seq<u16>, Seq<u16>)>) -> Seq<(Seq<u16>, Seq<u16>)>
    decreases vars.len(),
{
    if vars.len() == 0 {
        Seq::empty()
    } else {
        upsert(seeded_env(vars.drop_last()), upper_key(vars.last().0), vars.last().1)
    }
}

/// The `Command` type acts as a process builder, providing fine-grained
/// control over how a new process should be spawned. Besides the usual
/// program, arguments, environment, working directory and stream set-up,
/// it carries the modules to inject before the child's main thread
/// starts.
#[derive(Debug)]
pub struct Command {
    program: Vec<u16>,
    args: Vec<Vec<u16>>,
    env: Option<Vec<EnvVar>>,
    cwd: Option<Vec<u16>>,
    modules: Vec<Module>,
    stdin: Option<StdioKind>,
    stdout: Option<StdioKind>,
    stderr: Option<StdioKind>,
}

impl Command {
    /// The program's wide path, for contracts.
    pub closed spec fn program_units(self) -> Seq<u16> {
        self.program@
    }

    /// The arguments' wide units, for contracts.
    pub closed spec fn args_units(self) -> Seq<Seq<u16>> {
        self.args.deep_view()
    }

    /// The environment entries, for contracts: nothing while the child
    /// is to inherit this process's environment unchanged.
    pub closed spec fn env_list(self) -> Option<Seq<(Seq<u16>, Seq<u16>)>> {
        match self.env {
            Some(l) => Some(env_pairs(l@)),
            None => None,
        }
    }

    /// The working directory, for contracts: nothing while the child is
    /// to inherit this process's.
    pub closed spec fn cwd_units(self) -> Option<Seq<u16>> {
        match self.cwd {
            Some(d) => Some(d@),
            None => None,
        }
    }

    /// The modules to inject, for contracts.
    pub closed spec fn module_list(self) -> Seq<Module> {
        self.modules@
    }

    /// The chosen treatment of one standard stream, for contracts:
    /// nothing while the spawn's default is to decide.
    pub closed spec fn stream_kind(self, stream: StdStream) -> Option<StdioKind> {
        match stream {
            StdStream::Stdin => self.stdin,
            StdStream::Stdout => self.stdout,
            StdStream::Stderr => self.stderr,
        }
    }

    /// Constructs a new `Command` for launching the program at the given
    /// wide path, with no arguments, inheriting this process's
    /// environment and working directory, no modules, and the spawn's
    /// default treatment of each standard stream.
    pub fn new(program: &Vec<u16>) -> (r: Command)
        ensures
            r.program_units() == program@,
            r.args_units() == Seq::<Seq<u16>>::empty(),
            r.env_list() is None,
            r.cwd_units() is None,
            r.module_list() == Seq::<Module>::empty(),
            forall|s: StdStream| #[trigger] r.stream_kind(s) is None,
    {
        let mut p: Vec<u16> = Vec::new();
        let mut i: usize = 0;
        while i < program.len()
            invariant
                i <= program@.len(),
                p@ == program@.take(i as int),
            decreases program@.len() - i,
        {
            p.push(program[i]);
            assert(p@ =~= program@.take(i + 1));
            i = i + 1;
        }
        assert(program@.take(program@.len() as int) =~= program@);
        let r = Command {
            program: p,
            args: Vec::new(),
            env: None,
            cwd: None,
            modules: Vec::new(),
            stdin: None,
            stdout: None,
            stderr: None,
        };
        assert(r.args_units() =~= Seq::<Seq<u16>>::empty());
        r
    }

    /// Add an argument to pass to the program.
    pub fn arg(&mut self, a: &Vec<u16>)
        ensures
            final(self).args_units() == old(self).args_units().push(a@),
            unchanged_but_args(*old(self), *final(self)),
    {
        let mut v: Vec<u16> = Vec::new();
        let mut i: usize = 0;
        while i < a.len()
            invariant
                i <= a@.len(),
                v@ == a@.take(i as int),
            decreases a@.len() - i,
        {
            v.push(a[i]);
            assert(v@ =~= a@.take(i + 1));
            i = i + 1;
        }
        assert(a@.take(a@.len() as int) =~= a@);
        self.args.push(v);
        assert(self.args_units() =~~= old(self).args_units().push(a@));
    }

    /// Add multiple arguments to pass to the program.
    pub fn args(&mut self, list: &Vec<Vec<u16>>)
        ensures
            final(self).args_units() == old(self).args_units() + list.deep_view(),
            unchanged_but_args(*old(self), *final(self)),
    {
        let mut i: usize = 0;
        while i < list.len()
            invariant
                i <= list@.len(),
                self.args_units() == old(self).args_units() + list.deep_view().take(i as int),
                unchanged_but_args(*old(self), *self),
            decreases list@.len() - i,
    {
            self.arg(&list[i]);
            proof {
                assert(list.deep_view()[i as int] =~= list@[i as int]@);
                assert(list.deep_view().take(i + 1) =~= list.deep_view().take(i as int)
                    + seq![list.deep_view()[i as int]]);
                assert(self.args_units() =~~= old(self).args_units() + list.deep_view().take(
                    i + 1));
            }
            i = i + 1;
        }
        assert(list.deep_view().take(list@.len() as int) =~= list.deep_view());
        assert(self.args_units() =~~= old(self).args_units() + list.deep_view());
    }

    /// Seeds the environment from the given raw variables — this
    /// process's own environment, read by the shell around the library —
    /// unless an explicit environment was already begun. Keys are
    /// uppercased; of entries sharing a key the last wins.
    pub fn init_env(&mut self, vars: &Vec<EnvVar>)
        ensures
            old(self).env_list() is Some ==> *final(self) == *old(self),
            old(self).env_list() is None ==> final(self).env_list() == Some(
                seeded_env(env_pairs(vars@)),
            ) && unchanged_but_env(*old(self), *final(self)),
    {
        if self.env.is_some() {
            return;
        }
        self.env = Some(Vec::new());
        let mut i: usize = 0;
        proof {
            assert(env_pairs(vars@).take(0) =~= Seq::<(Seq<u16>, Seq<u16>)>::empty());
            assert(seeded_env(env_pairs(vars@).take(0)) =~= Seq::<(Seq<u16>, Seq<u16>)>::empty());
            assert(self.env_list() == Some(seeded_env(env_pairs(vars@).take(0))));
        }
        while i < vars.len()
            invariant
                i <= vars@.len(),
                self.env_list() == Some(seeded_env(env_pairs(vars@).take(i as int))),
                unchanged_but_env(*old(self), *self),
            decreases vars@.len() - i,
        {
            self.env(&vars[i].key, &vars[i].value);
            proof {
                let ps = env_pairs(vars@);
                assert(ps[i as int] == (vars@[i as int].key@, vars@[i as int].value@));
                assert(ps.take(i + 1).drop_last() =~= ps.take(i as int));
                assert(ps.take(i + 1).last() == ps[i as int]);
            }
            i = i + 1;
        }
        assert(env_pairs(vars@).take(vars@.len() as int) =~= env_pairs(vars@));
    }

    /// Inserts or updates an environment variable mapping. The key is
    /// uppercased; an entry with the same key is overwritten in place,
    /// any other entry is untouched. An environment begun this way
    /// replaces the inherited one; seed it first with `init_env` to keep
    /// the inherited variables.
    pub fn env(&mut self, key: &Vec<u16>, value: &Vec<u16>)
        ensures
            final(self).env_list() == Some(
                upsert(
                    (if old(self).env_list() is Some {
                        old(self).env_list()->0
                    } else {
                        Seq::<(Seq<u16>, Seq<u16>)>::empty()
                    }),
                    upper_key(key@),
                    value@,
                ),
            ),
            unchanged_but_env(*old(self), *final(self)),
    {
        let k = make_key(key);
        let mut v: Vec<u16> = Vec::new();
        let mut ci: usize = 0;
        while ci < value.len()
            invariant
                ci <= value@.len(),
                v@ == value@.take(ci as int),
            decreases value@.len() - ci,
        {
            v.push(value[ci]);
            assert(v@ =~= value@.take(ci + 1));
            ci = ci + 1;
        }
        assert(value@.take(value@.len() as int) =~= value@);
        let mut list: Vec<EnvVar> = match self.env.take() {
            Some(l) => l,
            None => Vec::new(),
        };
        let ghost l0 = env_pairs(list@);
        proof {
            if old(self).env_list() is None {
                assert(l0 =~= Seq::<(Seq<u16>, Seq<u16>)>::empty());
            }
        }
        match find_env_index(&list, &k) {
            Some(i) => {
                list.set(i, EnvVar { key: k, value: v });
                assert(env_pairs(list@) =~~= l0.update(i as int, (upper_key(key@), value@)));
            },
            None => {
                list.push(EnvVar { key: k, value: v });
                assert(env_pairs(list@) =~~= l0.push((upper_key(key@), value@)));
            },
        }
        self.env = Some(list);
    }

    /// Removes an environment variable mapping, by uppercased key. An
    /// environment begun this way replaces the inherited one; seed it
    /// first with `init_env` to keep the inherited variables.
    pub fn env_remove(&mut self, key: &Vec<u16>)
        ensures
            final(self).env_list() == Some(
                without_key(
                    (if old(self).env_list() is Some {
                        old(self).env_list()->0
                    } else {
                        Seq::<(Seq<u16>, Seq<u16>)>::empty()
                    }),
                    upper_key(key@),
                ),
            ),
            unchanged_but_env(*old(self), *final(self)),
    {
        let k = make_key(key);
        let mut list: Vec<EnvVar> = match self.env.take() {
            Some(l) => l,
            None => Vec::new(),
        };
        let ghost l0 = env_pairs(list@);
        proof {
            if old(self).env_list() is None {
                assert(l0 =~= Seq::<(Seq<u16>, Seq<u16>)>::empty());
            }
        }
        match find_env_index(&list, &k) {
            Some(i) => {
                list.remove(i);
                assert(env_pairs(list@) =~~= l0.remove(i as int));
            },
            None => {},
        }
        self.env = Some(list);
    }

    /// Clears the entire environment map for the child process.
    pub fn env_clear(&mut self)
        ensures
            final(self).env_list() == Some(Seq::<(Seq<u16>, Seq<u16>)>::empty()),
            unchanged_but_env(*old(self), *final(self)),
    {
        self.env = Some(Vec::new());
        assert(env_pairs(self.env->0@) =~= Seq::<(Seq<u16>, Seq<u16>)>::empty());
    }

    /// Sets the working directory for the child process.
    pub fn current_dir(&mut self, dir: &Vec<u16>)
        ensures
            final(self).cwd_units() == Some(dir@),
            unchanged_but_cwd(*old(self), *final(self)),
    {
        let mut v: Vec<u16> = Vec::new();
        let mut i: usize = 0;
        while i < dir.len()
            invariant
                i <= dir@.len(),
                v@ == dir@.take(i as int),
            decreases dir@.len() - i,
        {
            v.push(dir[i]);
            assert(v@ =~= dir@.take(i + 1));
            i = i + 1;
        }
        assert(dir@.take(dir@.len() as int) =~= dir@);
        self.cwd = Some(v);
    }

    /// Injects a module before the child process's main thread starts.
    /// Modules inject in the order they were added.
    pub fn inject(&mut self, module: Module)
        ensures
            final(self).module_list() == old(self).module_list().push(module),
            unchanged_but_modules(*old(self), *final(self)),
    {
        self.modules.push(module);
    }

    /// Configuration for the child process's stdin handle.
    pub fn stdin(&mut self, cfg: Stdio)
        ensures
            final(self).stream_kind(StdStream::Stdin) == Some(cfg.kind()),
            final(self).stream_kind(StdStream::Stdout) == old(self).stream_kind(
                StdStream::Stdout),
            final(self).stream_kind(StdStream::Stderr) == old(self).stream_kind(
                StdStream::Stderr),
            unchanged_but_streams(*old(self), *final(self)),
    {
        self.stdin = Some(cfg.kind);
    }

    /// Configuration for the child process's stdout handle.
    pub fn stdout(&mut self, cfg: Stdio)
        ensures
            final(self).stream_kind(StdStream::Stdout) == Some(cfg.kind()),
            final(self).stream_kind(StdStream::Stdin) == old(self).stream_kind(StdStream::Stdin),
            final(self).stream_kind(StdStream::Stderr) == old(self).stream_kind(
                StdStream::Stderr),
            unchanged_but_streams(*old(self), *final(self)),
    {
        self.stdout = Some(cfg.kind);
    }

    /// Configuration for the child process's stderr handle.
    pub fn stderr(&mut self, cfg: Stdio)
        ensures
            final(self).stream_kind(StdStream::Stderr) == Some(cfg.kind()),
            final(self).stream_kind(StdStream::Stdin) == old(self).stream_kind(StdStream::Stdin),
            final(self).stream_kind(StdStream::Stdout) == old(self).stream_kind(
                StdStream::Stdout),
            unchanged_but_streams(*old(self), *final(self)),
    {
        self.stderr = Some(cfg.kind);
    }

    /// The effective treatment of one standard stream: what was chosen,
    /// or the given default where nothing was.
    pub fn effective_stream(&self, stream: StdStream, default_kind: StdioKind) -> (r: StdioKind)
        ensures
            self.stream_kind(stream) matches Some(k) ==> r == k,
            self.stream_kind(stream) is None ==> r == default_kind,
    {
        let chosen = match stream {
            StdStream::Stdin => &self.stdin,
            StdStream::Stdout => &self.stdout,
            StdStream::Stderr => &self.stderr,
        };
        match chosen {
            Some(k) => *k,
            None => default_kind,
        }
    }

    /// The full command line the child is created with: the program and
    /// every argument quoted under the round-tripping scheme, joined by
    /// single spaces, terminated by a zero code unit.
    pub fn command_line(&self) -> (r: Vec<u16>)
        ensures
            r@ == cmdline(self.program_units(), self.args_units()) + seq![NUL],
    {
        make_command_line(&self.program, &self.args)
    }

    /// The environment block the child is created with, or nothing when
    /// the child inherits this process's environment.
    pub fn env_data(&self) -> (r: Option<Vec<u16>>)
        ensures
            self.env_list() matches Some(l) ==> (r matches Some(b) && b@ == env_block(l)),
            self.env_list() is None ==> r is None,
    {
        match &self.env {
            Some(list) => Some(make_env_block(list)),
            None => None,
        }
    }

    /// The zero-terminated working-directory string the child is created
    /// with, or nothing when the child inherits this process's.
    pub fn dir_data(&self) -> (r: Option<Vec<u16>>)
        ensures
            self.cwd_units() matches Some(d) ==> (r matches Some(b) && b@ == d + seq![
                crate::envblock::WNUL,
            ]),
            self.cwd_units() is None ==> r is None,
    {
        match &self.cwd {
            Some(d) => Some(make_dir_block(d)),
            None => None,
        }
    }

    /// The modules to inject, in order, for the shell that performs the
    /// injection.
    pub fn module_slice(&self) -> (r: &Vec<Module>)
        ensures
            r@ == self.module_list(),
    {
        &self.modules
    }
}

/// Everything of a command but its arguments stands as it stood.
pub open spec fn unchanged_but_args(a: Command, b: Command) -> bool {
    b.program_units() == a.program_units() && b.env_list() == a.env_list() && b.cwd_units()
        == a.cwd_units() && b.module_list() == a.module_list() && (forall|s: StdStream|
        #[trigger] b.stream_kind(s) == a.stream_kind(s))
}

/// Everything of a command but its environment stands as it stood.
pub open spec fn unchanged_but_env(a: Command, b: Command) -> bool {
    b.program_units() == a.program_units() && b.args_units() == a.args_units() && b.cwd_units()
        == a.cwd_units() && b.module_list() == a.module_list() && (forall|s: StdStream|
        #[trigger] b.stream_kind(s) == a.stream_kind(s))
}

/// Everything of a command but its working directory stands as it stood.
pub open spec fn unchanged_but_cwd(a: Command, b: Command) -> bool {
    b.program_units() == a.program_units() && b.args_units() == a.args_units() && b.env_list()
        == a.env_list() && b.module_list() == a.module_list() && (forall|s: StdStream|
        #[trigger] b.stream_kind(s) == a.stream_kind(s))
}

/// Everything of a command but its module list stands as it stood.
pub open spec fn unchanged_but_modules(a: Command, b: Command) -> bool {
    b.program_units() == a.program_units() && b.args_units() == a.args_units() && b.env_list()
        == a.env_list() && b.cwd_units() == a.cwd_units() && (forall|s: StdStream|
        #[trigger] b.stream_kind(s) == a.stream_kind(s))
}

/// Everything of a command but its stream set-up stands as it stood.
pub open spec fn unchanged_but_streams(a: Command, b: Command) -> bool {
    b.program_units() == a.program_units() && b.args_units() == a.args_units() && b.env_list()
        == a.env_list() && b.cwd_units() == a.cwd_units() && b.module_list() == a.module_list()
}

/// The position of the entry with this key, or nothing when no entry
/// has it.
pub fn find_env_index(list: &Vec<EnvVar>, k: &Vec<u16>) -> (r: Option<usize>)
    ensures
        r matches Some(i) ==> i as int == find_key(env_pairs(list@), k@) && i < list@.len(),
        r is None ==> find_key(env_pairs(list@), k@) == -1,
{
    let ghost l0 = env_pairs(list@);
    let n = list.len();
    let mut i: usize = 0;
    while i < n
        invariant
            i <= n == list@.len(),
            l0 == env_pairs(list@),
            forall|t: int| 0 <= t < i ==> (#[trigger] l0[t]).0 != k@,
        decreases n - i,
    {
        if wide_eq(&list[i].key, k) {
            proof {
                lemma_find_key(l0, k@);
                assert(l0[i as int].0 == k@);
                assert(find_key(l0, k@) == i as int);
            }
            return Some(i);
        }
        proof {
            assert(l0[i as int].0 != k@);
        }
        i = i + 1;
    }
    proof {
        lemma_find_key(l0, k@);
        assert(find_key(l0, k@) == -1) by {
            if find_key(l0, k@) != -1 {
                assert(l0[find_key(l0, k@)].0 == k@);
            }
        }
    }
    None
}

/// Whether two wide strings hold the same units.
pub fn wide_eq(a: &Vec<u16>, b: &Vec<u16>) -> (r: bool)
    ensures
        r <==> a@ == b@,
{
    if a.len() != b.len() {
        return false;
    }
    let mut i: usize = 0;
    while i < a.len()
        invariant
            i <= a@.len() == b@.len(),
            forall|t: int| 0 <= t < i ==> a@[t] == b@[t],
        decreases a@.len() - i,
    {
        if a[i] != b[i] {
            return false;
        }
        i = i + 1;
    }
    proof {
        assert(a@ =~= b@);
    }
    true
}

} // verus!
