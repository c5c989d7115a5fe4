//! The plain side of the control channel: what goes into the command record
//! before a call, and what is made of the record and the output buffer after
//! it.

use crate::nvpair::{parse, spec_parse, Entry, PairList, ParseError};
use crate::util::AutoString;
use crate::wire::c_strlen;
use vstd::prelude::*;
use vstd::slice::slice_subrange;

verus! {

/// The size of the command record's name field.
pub const MAXPATHLEN: usize = 4096;

/// The size of the output buffer that a handle owns.
pub const BUFFER_SIZE: usize = 262144;

/// The error code with which the kernel ends an iteration: no such process.
pub const ESRCH: i32 = 3;

/// The operations of the control device that only read.
#[derive(Debug, Clone, Copy, PartialEq, Eq, Structural)]
pub enum Opcode {
    /// The configuration of every pool.
    PoolConfigs,
    /// The statistics of one pool.
    PoolStats,
    /// The properties of one pool.
    PoolGetProps,
    /// The statistics of one object set.
    ObjsetStats,
    /// The next child of a dataset.
    DatasetListNext,
}

impl Opcode {
    /// The number of the operation.
    pub open spec fn spec_number(self) -> u64 {
        match self {
            Opcode::PoolConfigs => 0x04,
            Opcode::PoolStats => 0x05,
            Opcode::PoolGetProps => 0x27,
            Opcode::ObjsetStats => 0x12,
            Opcode::DatasetListNext => 0x14,
        }
    }

    /// The number of the operation.
    pub fn number(self) -> (r: u64)
        ensures
            r == self.spec_number(),
    {
        match self {
            Opcode::PoolConfigs => 0x04,
            Opcode::PoolStats => 0x05,
            Opcode::PoolGetProps => 0x27,
            Opcode::ObjsetStats => 0x12,
            Opcode::DatasetListNext => 0x14,
        }
    }

    /// Whether the operation is about a named pool or dataset.
    pub fn takes_name(self) -> (r: bool)
        ensures
            r == (self != Opcode::PoolConfigs),
    {
        match self {
            Opcode::PoolConfigs => false,
            _ => true,
        }
    }

    /// Whether the operation continues an iteration from a cookie.
    pub fn takes_cookie(self) -> (r: bool)
        ensures
            r == (self == Opcode::DatasetListNext),
    {
        match self {
            Opcode::DatasetListNext => true,
            _ => false,
        }
    }
}

/// Why a call could not be prepared, or its reply not be used.
#[derive(Debug, Clone, Copy, PartialEq, Eq)]
pub enum CallError {
    /// The name and its NUL do not fit the name field.
    NameTooLong,
    /// The kernel reports more bytes than the output buffer holds.
    ReplyTooLarge,
    /// The output buffer holds no container.
    Decode(ParseError),
    /// The name field that came back holds no NUL.
    UnterminatedName,
}

/// The fields of the command record that a call sets and reads; the record
/// itself, with the fields that are never used, belongs to the caller.
#[derive(Debug)]
pub struct Command {
    name: Vec<u8>,
    nvlist_dst_size: u64,
    cookie: u64,
}

/// What the fields of a command record hold.
pub struct CommandView {
    /// The name field, all `MAXPATHLEN` bytes of it.
    pub name: Seq<u8>,
    /// The capacity of the output buffer before a call, and the number of
    /// bytes that were written to it after.
    pub nvlist_dst_size: u64,
    /// The cursor of an iteration.
    pub cookie: u64,
}

impl View for Command {
    type V = CommandView;

    closed spec fn view(&self) -> CommandView {
        CommandView {
            name: self.name@,
            nvlist_dst_size: self.nvlist_dst_size,
            cookie: self.cookie,
        }
    }
}

/// `MAXPATHLEN` bytes that start with the bytes of `name` and are zero after
/// them.
pub open spec fn name_field_of(name: Seq<u8>) -> Seq<u8> {
    Seq::new(
        MAXPATHLEN as nat,
        |i: int|
            if i < name.len() {
                name[i]
            } else {
                0u8
            },
    )
}

impl Command {
    #[verifier::type_invariant]
    spec fn inv(self) -> bool {
        self.name@.len() == MAXPATHLEN
    }

    /// The record before a call: every field zero but the size of the output
    /// buffer, which is `capacity`.
    pub fn new(capacity: u64) -> (r: Command)
        ensures
            r@ == (CommandView {
                name: name_field_of(Seq::empty()),
                nvlist_dst_size: capacity,
                cookie: 0,
            }),
    {
        let name: Vec<u8> = vec![0u8; MAXPATHLEN];
        proof {
            assert(name@ =~= name_field_of(Seq::empty()));
        }
        Command { name, nvlist_dst_size: capacity, cookie: 0 }
    }

    /// The record as it came back from a call. The name field has to have its
    /// `MAXPATHLEN` bytes.
    pub fn from_parts(name: &[u8], nvlist_dst_size: u64, cookie: u64) -> (r: Option<Command>)
        ensures
            match r {
                Some(c) => name@.len() == MAXPATHLEN && c@ == (CommandView {
                    name: name@,
                    nvlist_dst_size,
                    cookie,
                }),
                None => name@.len() != MAXPATHLEN,
            },
    {
        if name.len() != MAXPATHLEN {
            None
        } else {
            Some(Command { name: vstd::slice::slice_to_vec(name), nvlist_dst_size, cookie })
        }
    }

    /// Copies `name` and its NUL to the start of the name field. A name that
    /// does not fit with its NUL is refused, and the record stays as it is.
    pub fn set_name(&mut self, name: &AutoString) -> (r: Result<(), CallError>)
        ensures
            name@.len() < MAXPATHLEN ==> r is Ok && final(self)@ == (CommandView {
                name: name@.push(0) + old(self)@.name.subrange(
                    name@.len() as int + 1,
                    MAXPATHLEN as int,
                ),
                ..old(self)@
            }),
            name@.len() >= MAXPATHLEN ==> r == Err::<(), CallError>(CallError::NameTooLong)
                && final(self)@ == old(self)@,
    {
        proof {
            use_type_invariant(&*self);
        }
        let bytes = name.as_c_str();
        if bytes.len() > MAXPATHLEN {
            return Err(CallError::NameTooLong);
        }
        let mut field: Vec<u8> = Vec::new();
        let mut i: usize = 0;
        while i < MAXPATHLEN
            invariant
                i <= MAXPATHLEN,
                bytes@.len() <= MAXPATHLEN,
                self.name@.len() == MAXPATHLEN,
                field@.len() == i,
                forall|j: int| 0 <= j < i && j < bytes@.len() ==> field@[j] == bytes@[j],
                forall|j: int| bytes@.len() <= j < i ==> field@[j] == self.name@[j],
            decreases MAXPATHLEN - i,
        {
            if i < bytes.len() {
                field.push(bytes[i]);
            } else {
                field.push(self.name[i]);
            }
            i += 1;
        }
        proof {
            assert(field@ =~= name@.push(0) + old(self).name@.subrange(
                name@.len() as int + 1,
                MAXPATHLEN as int,
            ));
        }
        self.name = field;
        Ok(())
    }

    /// Sets the cursor of an iteration.
    pub fn set_cookie(&mut self, cookie: u64)
        ensures
            final(self)@ == (CommandView { cookie, ..old(self)@ }),
    {
        proof {
            use_type_invariant(&*self);
        }
        self.cookie = cookie;
    }

    /// The name field, all `MAXPATHLEN` bytes of it.
    pub fn name_field(&self) -> (r: &[u8])
        ensures
            r@ == self@.name,
            r@.len() == MAXPATHLEN,
    {
        proof {
            use_type_invariant(self);
        }
        self.name.as_slice()
    }

    /// The capacity of the output buffer before a call, and the number of
    /// bytes that were written to it after.
    pub fn nvlist_dst_size(&self) -> (r: u64)
        ensures
            r == self@.nvlist_dst_size,
    {
        self.nvlist_dst_size
    }

    /// The cursor of an iteration.
    pub fn cookie(&self) -> (r: u64)
        ensures
            r == self@.cookie,
    {
        self.cookie
    }

    /// The name that the name field holds: the bytes before its first NUL.
    pub fn name(&self) -> (r: Result<AutoString, CallError>)
        ensures
            match r {
                Ok(s) => c_strlen(self@.name) < MAXPATHLEN && s@ == self@.name.subrange(
                    0,
                    c_strlen(self@.name),
                ),
                Err(e) => c_strlen(self@.name) == MAXPATHLEN && e == CallError::UnterminatedName,
            },
    {
        proof {
            use_type_invariant(self);
        }
        match crate::wire::find_nul(self.name.as_slice()) {
            Some(_) => Ok(AutoString::from(self.name.as_slice())),
            None => Err(CallError::UnterminatedName),
        }
    }
}

/// What the record for a call of `op` holds before the call: zeros, the
/// capacity of the output buffer, the name where the operation takes one,
/// and the cookie where it takes one.
pub open spec fn spec_prepare(op: Opcode, capacity: u64, name: Seq<u8>, cookie: u64) -> Result<
    CommandView,
    CallError,
> {
    if op == Opcode::PoolConfigs {
        Ok(CommandView { name: name_field_of(Seq::empty()), nvlist_dst_size: capacity, cookie: 0 })
    } else if name.len() >= MAXPATHLEN {
        Err(CallError::NameTooLong)
    } else {
        Ok(
            CommandView {
                name: name_field_of(name),
                nvlist_dst_size: capacity,
                cookie: if op == Opcode::DatasetListNext {
                    cookie
                } else {
                    0
                },
            },
        )
    }
}

/// Makes the record for a call of `op` on an output buffer of `capacity`
/// bytes. `name` and `cookie` are used where the operation takes them.
pub fn prepare(op: Opcode, capacity: u64, name: &AutoString, cookie: u64) -> (r: Result<
    Command,
    CallError,
>)
    ensures
        match r {
            Ok(c) => spec_prepare(op, capacity, name@, cookie) == Ok::<CommandView, CallError>(c@),
            Err(e) => spec_prepare(op, capacity, name@, cookie) == Err::<CommandView, CallError>(
                e,
            ),
        },
{
    let mut cmd = Command::new(capacity);
    if op.takes_name() {
        match cmd.set_name(name) {
            Ok(()) => {},
            Err(e) => {
                return Err(e);
            },
        }
        proof {
            assert(cmd@.name =~= name_field_of(name@));
        }
    }
    if op.takes_cookie() {
        cmd.set_cookie(cookie);
    }
    Ok(cmd)
}

/// The container that a call wrote: the one that the first `size` bytes of
/// the output buffer encode.
pub open spec fn spec_invoke_list(buf: Seq<u8>, size: u64) -> Result<Seq<Entry>, CallError> {
    if size > buf.len() {
        Err(CallError::ReplyTooLarge)
    } else {
        match spec_parse(buf.subrange(0, size as int)) {
            Ok(l) => Ok(l),
            Err(e) => Err(CallError::Decode(e)),
        }
    }
}

/// Decodes the container that a call wrote to the output buffer `buf`, of
/// which the kernel reports `size` bytes written.
pub fn invoke_list(buf: &[u8], size: u64) -> (r: Result<PairList, CallError>)
    ensures
        match r {
            Ok(l) => spec_invoke_list(buf@, size) == Ok::<Seq<Entry>, CallError>(l@),
            Err(e) => spec_invoke_list(buf@, size) == Err::<Seq<Entry>, CallError>(e),
        },
{
    if size > buf.len() as u64 {
        return Err(CallError::ReplyTooLarge);
    }
    match parse(slice_subrange(buf, 0, size as usize)) {
        Ok(l) => Ok(l),
        Err(e) => Err(CallError::Decode(e)),
    }
}

/// What one step of an iteration found: a child's name, its container, and
/// the cookie with which the iteration goes on.
#[derive(Debug)]
pub struct IterState {
    pub name: AutoString,
    pub list: PairList,
    pub cookie: u64,
}

/// Makes the outcome of a successful step of an iteration from the record
/// that came back and the output buffer.
pub fn iter_state(cmd: &Command, buf: &[u8]) -> (r: Result<IterState, CallError>)
    ensures
        match r {
            Ok(is) => {
                &&& spec_invoke_list(buf@, cmd@.nvlist_dst_size) == Ok::<Seq<Entry>, CallError>(
                    is.list@,
                )
                &&& c_strlen(cmd@.name) < MAXPATHLEN
                &&& is.name@ == cmd@.name.subrange(0, c_strlen(cmd@.name))
                &&& is.cookie == cmd@.cookie
            },
            Err(e) => match spec_invoke_list(buf@, cmd@.nvlist_dst_size) {
                Err(d) => e == d,
                Ok(_) => c_strlen(cmd@.name) == MAXPATHLEN && e == CallError::UnterminatedName,
            },
        },
{
    let list = match invoke_list(buf, cmd.nvlist_dst_size()) {
        Ok(l) => l,
        Err(e) => {
            return Err(e);
        },
    };
    let name = match cmd.name() {
        Ok(n) => n,
        Err(e) => {
            return Err(e);
        },
    };
    Ok(IterState { name, list, cookie: cmd.cookie() })
}

/// How one step of an iteration ended.
#[derive(Debug)]
pub enum Step {
    /// The step found a child.
    Item(IterState),
    /// There is no further child: the kernel refused the step with `ESRCH`.
    End,
}

/// What a failed step of an iteration comes to, by the error code of the
/// failure, if it has one: the code `ESRCH` is no error but the end of the
/// iteration, and every other failure stays the error that it is.
pub fn step_after_failure(code: Option<i32>) -> (r: Result<Step, Option<i32>>)
    ensures
        match r {
            Ok(step) => code == Some(ESRCH) && step is End,
            Err(e) => code != Some(ESRCH) && e == code,
        },
{
    if is_exhausted(code) {
        Ok(Step::End)
    } else {
        Err(code)
    }
}

/// Tells whether the error code of a failed step, if the failure has one,
/// is the one that ends an iteration. Every other failure is an error.
pub fn is_exhausted(code: Option<i32>) -> (r: bool)
    ensures
        r == (code == Some(ESRCH)),
{
    match code {
        Some(n) => n == ESRCH,
        None => false,
    }
}

} // verus!
