//! Jobs: a command to run with its inputs, a running process, or its
//! collected output; and the decisions that take a job from one to the
//! next. The runtime that spawns processes, waits for them and feeds their
//! inputs performs the steps these functions decide.
use vstd::prelude::*;
use crate::buf::{Byteable, MemTake};
use crate::sd2::string_from_utf8;

verus! {

/// A command, as the runtime that runs jobs knows it.
#[derive(Debug, Clone, Copy, PartialEq, Eq, Structural)]
pub enum CommandRef {
    /// The command that feeds a buffer into another job's input.
    InternalInput,
    /// The command that echoes a buffer as a job's output.
    InternalPipe,
    /// A command that the runtime holds, by its index.
    External(usize),
}

/// A running child process, by the runtime's handle.
#[derive(Debug, Clone, Copy, PartialEq, Eq, Structural)]
pub struct Child(pub usize);

/// A running thread, by the runtime's handle.
#[derive(Debug, Clone, Copy, PartialEq, Eq, Structural)]
pub struct Thread(pub usize);

/// Why a job operation failed.
#[derive(Debug, Clone, Copy, PartialEq, Eq, Structural)]
pub enum JobError {
    /// The job is not a command waiting to be run.
    NotSpec,
    /// The job is not collected output.
    NotBuffer,
    /// The buffer does not hold a string.
    NotString,
    /// An empty buffer cannot become a string.
    NullString,
    /// An empty job cannot be piped.
    NullPipe,
    /// The output is not UTF-8.
    Utf8,
    /// The command exited with a failure.
    Failed(CommandRef),
}

/// Collected output.
#[derive(Debug)]
pub enum Buffer {
    Null,
    Bytes(CommandRef, Vec<u8>),
    String(CommandRef, String),
}

/// A command with the jobs that feed its input, in order.
#[derive(Debug)]
pub struct Spec {
    pub cmd: CommandRef,
    pub input: Vec<Job>,
}

/// What a started job produces its output from.
#[derive(Debug)]
pub enum SystemItem {
    Child(Child),
    Buffer(Vec<u8>),
}

/// Work to do once the child is spawned: write these bytes to its input.
#[derive(Debug)]
pub struct Init {
    pub input: Vec<u8>,
}

/// What must be waited for once a job is done.
#[derive(Debug)]
pub enum Cleanup {
    Child(Child, CommandRef),
    Thread(Thread),
}

/// A started job.
#[derive(Debug)]
pub struct System {
    pub cmd: CommandRef,
    pub item: SystemItem,
    pub cleanup: Vec<Cleanup>,
    pub init: Vec<Init>,
}

/// A job.
#[derive(Debug)]
pub enum Job {
    Null,
    Spec(Spec),
    System(System),
    Buffer(Buffer),
}

// ---------------------------------------------------------------------------
// Buffers
// ---------------------------------------------------------------------------

impl Buffer {
    /// The bytes a buffer holds: a string's are its UTF-8 encoding.
    pub open spec fn bytes(&self) -> Seq<u8> {
        match self {
            Buffer::Null => Seq::empty(),
            Buffer::Bytes(_, v) => v@,
            Buffer::String(_, s) => vstd::utf8::encode_utf8(s@),
        }
    }

    /// The bytes of the buffer.
    pub fn as_bytes(&self) -> (r: &[u8])
        ensures
            r@ == self.bytes(),
    {
        match self {
            Buffer::Bytes(_, v) => v.as_slice(),
            Buffer::String(_, v) => v.as_str().as_bytes(),
            Buffer::Null => {
                let e: &[u8] = &[];
                assert(e@ =~= Seq::<u8>::empty());
                e
            },
        }
    }

    /// The bytes of the buffer, taking it apart.
    pub fn take_bytes(self) -> (r: Vec<u8>)
        requires
            !(self is Null),
        ensures
            r@ == self.bytes(),
    {
        match self {
            Buffer::Bytes(_, v) => v,
            Buffer::String(_, v) => Byteable::into_bytes(v),
            Buffer::Null => Vec::new(),
        }
    }

    /// The string of the buffer, if it holds one.
    pub fn as_str(&self) -> (r: Result<&str, JobError>)
        ensures
            match self {
                Buffer::String(_, s) => r matches Ok(t) && t@ == s@,
                _ => r == Err::<&str, JobError>(JobError::NotString),
            },
    {
        match self {
            Buffer::String(_, v) => Ok(v.as_str()),
            _ => Err(JobError::NotString),
        }
    }

    /// Turn the buffer into a string: bytes that are UTF-8 become the
    /// string they encode. Bytes that are not leave the buffer empty.
    pub fn make_string(&mut self) -> (r: Result<&str, JobError>)
        ensures
            match *old(self) {
                Buffer::Null => {
                    &&& r == Err::<&str, JobError>(JobError::NullString)
                    &&& *final(self) is Null
                },
                Buffer::String(c, s) => {
                    &&& r is Ok
                    &&& r->Ok_0@ == s@
                    &&& *final(self) == Buffer::String(c, s)
                },
                Buffer::Bytes(c, b) => if vstd::utf8::valid_utf8(b@) {
                    &&& r is Ok
                    &&& vstd::utf8::encode_utf8(r->Ok_0@) == b@
                    &&& *final(self) is String
                    &&& final(self)->String_0 == c
                    &&& final(self)->String_1@ == r->Ok_0@
                } else {
                    &&& r == Err::<&str, JobError>(JobError::Utf8)
                    &&& *final(self) is Null
                },
            },
    {
        let mut taken = Buffer::Null;
        std::mem::swap(self, &mut taken);
        match taken {
            Buffer::Null => Err(JobError::NullString),
            Buffer::String(cmd, string) => {
                *self = Buffer::String(cmd, string);
                self.as_str()
            },
            Buffer::Bytes(cmd, bytes) => {
                proof {
                    if vstd::utf8::valid_utf8(bytes@) {
                        vstd::utf8::decode_utf8_encode_utf8(bytes@);
                    }
                }
                match string_from_utf8(bytes) {
                    Some(s) => {
                        proof {
                            vstd::utf8::encode_utf8_valid_utf8(s@);
                        }
                        *self = Buffer::String(cmd, s);
                        self.as_str()
                    },
                    None => Err(JobError::Utf8),
                }
            },
        }
    }
}

impl Default for Buffer {
    fn default() -> (r: Self)
        ensures
            r is Null,
    {
        Buffer::Null
    }
}

// ---------------------------------------------------------------------------
// Jobs
// ---------------------------------------------------------------------------

/// A started job that echoes `bytes` as its output.
pub open spec fn echoes(sys: System, bytes: Seq<u8>) -> bool {
    &&& sys.cmd == CommandRef::InternalPipe
    &&& sys.item matches SystemItem::Buffer(b) && b@ == bytes
    &&& sys.cleanup@.len() == 0
    &&& sys.init@.len() == 0
}

/// What feeding `input` into a command adds to its inputs (`added`), and
/// what is left in place of `input` (`left`): collected bytes are echoed
/// from a copy; a command, a running process or a string is moved over.
pub open spec fn fed(input: Job, added: Job, left: Job) -> bool {
    match input {
        Job::Null => added is Null && left is Null,
        Job::Buffer(Buffer::Null) => added == input && left == input,
        Job::Buffer(Buffer::Bytes(_, b)) => added matches Job::System(sys) && echoes(sys, b@)
            && left == input,
        Job::System(s) => match s.item {
            SystemItem::Buffer(b) => added matches Job::System(sys) && echoes(sys, b@) && left
                == input,
            SystemItem::Child(_) => added == input && left is Null,
        },
        _ => added == input && left is Null,
    }
}

/// A buffer echoed as a started job's output. Whether the output is to be
/// captured (`_capture`) makes no difference to an echo.
pub fn echo_buffer(buf: Buffer, _capture: bool) -> (r: System)
    requires
        !(buf is Null),
    ensures
        echoes(r, buf.bytes()),
{
    System {
        cmd: CommandRef::InternalPipe,
        item: SystemItem::Buffer(buf.take_bytes()),
        cleanup: Vec::new(),
        init: Vec::new(),
    }
}

/// A copy of the bytes.
fn copy_bytes(buf: &Vec<u8>) -> (r: Vec<u8>)
    ensures
        r@ == buf@,
{
    let mut copy: Vec<u8> = Vec::new();
    let mut k: usize = 0;
    while k < buf.len()
        invariant
            k <= buf@.len(),
            copy@ == buf@.take(k as int),
        decreases buf@.len() - k,
    {
        copy.push(buf[k]);
        assert(buf@.take(k + 1) =~= buf@.take(k as int).push(buf@[k as int]));
        k = k + 1;
    }
    assert(buf@.take(buf@.len() as int) =~= buf@);
    copy
}

/// A job that echoes a copy of `buf`.
pub fn echo_buffer_job(buf: &Vec<u8>) -> (r: Job)
    ensures
        r matches Job::System(sys) && echoes(sys, buf@),
{
    Job::System(echo_buffer(Buffer::Bytes(CommandRef::InternalInput, copy_bytes(buf)), true))
}

impl Default for Job {
    fn default() -> (r: Self)
        ensures
            r is Null,
    {
        Job::Null
    }
}

impl MemTake for Job {
    fn mem_take(&mut self) -> (r: Self)
        ensures
            r == *old(self),
            *final(self) is Null,
    {
        let mut r = Job::Null;
        std::mem::swap(self, &mut r);
        r
    }
}

/// What running a job as a pipe takes: spawning its command, or nothing
/// more, the job being started already.
#[derive(Debug)]
pub enum PipeStep {
    Spawn(Spec),
    Ready(System),
}

/// Where a command's input comes from.
#[derive(Debug, Clone, Copy, PartialEq, Eq, Structural)]
pub enum StdinFrom {
    /// The output of this running child.
    ChildStdout(Child),
    /// A pipe that the job's inits write to.
    Piped,
}

/// What collecting a started job's output takes.
#[derive(Debug)]
pub enum CollectStep {
    /// Wait for the child and read its output, then wait for the cleanups.
    Wait { child: Child, cmd: CommandRef, cleanup: Vec<Cleanup> },
    /// The output is there already.
    Done(Buffer),
}

impl Job {
    /// A command to run, with no inputs yet.
    pub fn from_command(cmd: CommandRef) -> (r: Job)
        ensures
            r matches Job::Spec(s) && s.cmd == cmd && s.input@.len() == 0,
    {
        Job::Spec(Spec { cmd, input: Vec::new() })
    }

    /// The collected output of the job.
    pub fn as_buffer(&self) -> (r: Result<&Buffer, JobError>)
        ensures
            match self {
                Job::Buffer(b) => r == Ok::<&Buffer, JobError>(b),
                _ => r == Err::<&Buffer, JobError>(JobError::NotBuffer),
            },
    {
        match self {
            Job::Buffer(b) => Ok(b),
            _ => Err(JobError::NotBuffer),
        }
    }

    /// The bytes of the collected output.
    pub fn as_bytes(&self) -> (r: Result<&[u8], JobError>)
        ensures
            match self {
                Job::Buffer(b) => r is Ok && r->Ok_0@ == b.bytes(),
                _ => r == Err::<&[u8], JobError>(JobError::NotBuffer),
            },
    {
        match self.as_buffer() {
            Ok(b) => Ok(b.as_bytes()),
            Err(e) => Err(e),
        }
    }

    /// The collected output, as a string.
    pub fn as_str(&self) -> (r: Result<&str, JobError>)
        ensures
            match self {
                Job::Buffer(Buffer::String(_, s)) => r is Ok && r->Ok_0@ == s@,
                Job::Buffer(_) => r == Err::<&str, JobError>(JobError::NotString),
                _ => r == Err::<&str, JobError>(JobError::NotBuffer),
            },
    {
        match self.as_buffer() {
            Ok(b) => b.as_str(),
            Err(e) => Err(e),
        }
    }

    /// Feed `input_job` into this command's input.
    pub fn add_input_job(&mut self, input_job: &mut Job) -> (r: Result<(), JobError>)
        ensures
            match *old(self) {
                Job::Spec(sp) => {
                    &&& r is Ok
                    &&& *final(self) is Spec
                    &&& final(self)->Spec_0.cmd == sp.cmd
                    &&& final(self)->Spec_0.input@.len() == sp.input@.len() + 1
                    &&& final(self)->Spec_0.input@.drop_last() == sp.input@
                    &&& fed(*old(input_job), final(self)->Spec_0.input@.last(), *final(input_job))
                },
                _ => {
                    &&& r == Err::<(), JobError>(JobError::NotSpec)
                    &&& *final(self) == *old(self)
                    &&& *final(input_job) == *old(input_job)
                },
            },
    {
        match self {
            Job::Spec(spec) => {
                let added = match input_job {
                    Job::Null => Job::Null,
                    Job::Buffer(Buffer::Null) => Job::Buffer(Buffer::Null),
                    Job::Buffer(Buffer::Bytes(_, buf)) => echo_buffer_job(buf),
                    Job::System(System { item: SystemItem::Buffer(buf), .. }) => echo_buffer_job(buf),
                    _ => input_job.mem_take(),
                };
                spec.input.push(added);
                Ok(())
            },
            _ => Err(JobError::NotSpec),
        }
    }

    /// What running the job as a pipe takes. An empty job cannot be piped.
    pub fn into_pipe_step(self, capture: bool) -> (r: Result<PipeStep, JobError>)
        requires
            !(self matches Job::Buffer(Buffer::Null)),
        ensures
            match self {
                Job::Spec(s) => r matches Ok(PipeStep::Spawn(s2)) && s2 == s,
                Job::System(s) => r matches Ok(PipeStep::Ready(s2)) && s2 == s,
                Job::Buffer(b) => r matches Ok(PipeStep::Ready(s2)) && echoes(s2, b.bytes()),
                Job::Null => r matches Err(e) && e == JobError::NullPipe,
            },
    {
        match self {
            Job::Spec(spec) => Ok(PipeStep::Spawn(spec)),
            Job::System(s) => Ok(PipeStep::Ready(s)),
            Job::Buffer(buf) => Ok(PipeStep::Ready(echo_buffer(buf, capture))),
            Job::Null => Err(JobError::NullPipe),
        }
    }
}

impl System {
    /// The work to do once the next command is spawned, and what to wait
    /// for afterwards: this job's own child, if it has one, last.
    pub fn into_init_cleanup(self) -> (r: (Vec<Init>, Vec<Cleanup>))
        ensures
            r.0@ == self.init@,
            r.1@ == match self.item {
                SystemItem::Child(c) => self.cleanup@.push(Cleanup::Child(c, self.cmd)),
                SystemItem::Buffer(_) => self.cleanup@,
            },
    {
        let System { cmd, item, mut cleanup, init } = self;
        match item {
            SystemItem::Child(child) => {
                cleanup.push(Cleanup::Child(child, cmd));
            },
            SystemItem::Buffer(_) => {},
        }
        (init, cleanup)
    }

    /// How a started job feeds the next command's input: a child's output
    /// goes straight in; a buffer is written into a pipe once the command
    /// is spawned, by an init that this job then carries.
    pub fn input_connection(self) -> (r: (System, StdinFrom))
        ensures
            match self.item {
                SystemItem::Child(c) => r.0 == self && r.1 == StdinFrom::ChildStdout(c),
                SystemItem::Buffer(b) => {
                    &&& r.1 == StdinFrom::Piped
                    &&& r.0.cmd == self.cmd
                    &&& r.0.item == self.item
                    &&& r.0.cleanup == self.cleanup
                    &&& r.0.init@.len() == self.init@.len() + 1
                    &&& r.0.init@.drop_last() == self.init@
                    &&& r.0.init@.last().input@ == b@
                },
            },
    {
        let mut sys = self;
        let from = match &sys.item {
            SystemItem::Child(c) => StdinFrom::ChildStdout(*c),
            SystemItem::Buffer(buf) => {
                let copy = copy_bytes(buf);
                sys.init.push(Init { input: copy });
                StdinFrom::Piped
            },
        };
        (sys, from)
    }

    /// What collecting the output takes.
    pub fn collect_step(self) -> (r: CollectStep)
        ensures
            match self.item {
                SystemItem::Child(c) => r matches CollectStep::Wait { child, cmd, cleanup } && child
                    == c && cmd == self.cmd && cleanup == self.cleanup,
                SystemItem::Buffer(b) => r matches CollectStep::Done(Buffer::Bytes(cmd, b2)) && cmd
                    == self.cmd && b2 == b,
            },
    {
        let System { cmd, item, cleanup, .. } = self;
        match item {
            SystemItem::Child(child) => CollectStep::Wait { child, cmd, cleanup },
            SystemItem::Buffer(buf) => CollectStep::Done(Buffer::Bytes(cmd, buf)),
        }
    }
}

/// A command that exited with a failure is an error.
pub fn check_exit_status(cmd: CommandRef, success: bool) -> (r: Result<(), JobError>)
    ensures
        success ==> r is Ok,
        !success ==> r == Err::<(), JobError>(JobError::Failed(cmd)),
{
    if !success {
        return Err(JobError::Failed(cmd));
    }
    Ok(())
}

} // verus!
