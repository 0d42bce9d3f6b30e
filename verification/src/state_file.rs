//! Private, bounded, atomically replaced files under the state directory.
//!
//! Paths are bytes, as the system has them. The caller opens, reads, writes and
//! renames; what it may trust, where files stand and in which order they are
//! replaced is decided here.

use vstd::prelude::*;

use crate::duration::Duration;
use crate::identity::{self, fresh_id, write_id};
use crate::text::{self, decimal_of};

verus! {

pub const FILE_MODE: u32 = 0o600;

pub const DIRECTORY_MODE: u32 = 0o700;

/// The bits of a mode that grant something.
pub const MODE_MASK: u32 = 0o7777;

pub const SLASH: u8 = 47;

// ---------------------------------------------------------------------------
// Locations

#[derive(Clone, Copy, Debug, PartialEq, Eq, Structural)]
pub enum LocationFault {
    RelativeStateHome,
    NoHome,
    RelativeHome,
}

impl LocationFault {
    pub open spec fn wording(self) -> Seq<char> {
        match self {
            LocationFault::RelativeStateHome =>
                "XDG_STATE_HOME must be an absolute path when resolving Fut state"@,
            LocationFault::NoHome => "HOME must be set when XDG_STATE_HOME is not set"@,
            LocationFault::RelativeHome =>
                "HOME must be an absolute path when resolving Fut state"@,
        }
    }

    pub fn text(&self) -> (r: &'static str)
        ensures
            r@ == self.wording(),
    {
        match self {
            LocationFault::RelativeStateHome =>
                "XDG_STATE_HOME must be an absolute path when resolving Fut state",
            LocationFault::NoHome => "HOME must be set when XDG_STATE_HOME is not set",
            LocationFault::RelativeHome => "HOME must be an absolute path when resolving Fut state",
        }
    }
}

pub open spec fn absolute(path: Seq<u8>) -> bool {
    path.len() > 0 && path[0] == SLASH
}

/// `path` under `base`: an absolute path stands for itself, and a separator comes
/// between where the base does not end with one.
pub open spec fn joined(base: Seq<u8>, path: Seq<u8>) -> Seq<u8> {
    if absolute(path) {
        path
    } else if base.len() > 0 && base.last() != SLASH {
        base.push(SLASH) + path
    } else {
        base + path
    }
}

fn is_absolute(path: &[u8]) -> (r: bool)
    ensures
        r == absolute(path@),
{
    path.len() > 0 && path[0] == SLASH
}

fn extend(out: &mut Vec<u8>, bytes: &[u8])
    ensures
        final(out)@ == old(out)@ + bytes@,
{
    let mut i: usize = 0;
    proof {
        assert(out@ =~= old(out)@ + bytes@.take(0));
    }
    while i < bytes.len()
        invariant
            i <= bytes.len(),
            out@ == old(out)@ + bytes@.take(i as int),
        decreases bytes.len() - i,
    {
        out.push(bytes[i]);
        proof {
            assert(bytes@.take(i + 1) =~= bytes@.take(i as int).push(bytes@[i as int]));
            assert(out@ =~= old(out)@ + bytes@.take(i + 1));
        }
        i += 1;
    }
    proof {
        assert(bytes@.take(bytes@.len() as int) =~= bytes@);
    }
}

/// `std::path::Path::join` on the bytes of paths.
pub fn join(base: &[u8], path: &[u8]) -> (r: Vec<u8>)
    ensures
        r@ == joined(base@, path@),
{
    let mut out: Vec<u8> = Vec::new();
    if !is_absolute(path) {
        extend(&mut out, base);
        if base.len() > 0 && base[base.len() - 1] != SLASH {
            out.push(SLASH);
        }
    }
    extend(&mut out, path);
    proof {
        assert(out@ =~= joined(base@, path@));
    }
    out
}

/// The directory below the state home.
pub open spec fn state_directory() -> Seq<u8> {
    seq![102u8, 117, 116]
}

/// The state home below the user's home, and the directory below it.
pub open spec fn home_state_directory() -> Seq<u8> {
    seq![46u8, 108, 111, 99, 97, 108, 47, 115, 116, 97, 116, 101, 47, 102, 117, 116]
}

pub open spec fn given(variable: Option<&[u8]>) -> bool {
    variable matches Some(value) && value@.len() > 0
}

/// Where a state file stands, or what is wrong with the environment. An empty
/// variable counts as unset.
pub open spec fn location(
    file_name: Seq<u8>,
    xdg_state_home: Option<&[u8]>,
    home: Option<&[u8]>,
) -> Result<Seq<u8>, LocationFault> {
    if given(xdg_state_home) {
        let directory = xdg_state_home->0@;
        if absolute(directory) {
            Ok(joined(joined(directory, state_directory()), file_name))
        } else {
            Err(LocationFault::RelativeStateHome)
        }
    } else if given(home) {
        let directory = home->0@;
        if absolute(directory) {
            Ok(joined(joined(directory, home_state_directory()), file_name))
        } else {
            Err(LocationFault::RelativeHome)
        }
    } else {
        Err(LocationFault::NoHome)
    }
}

fn present(variable: Option<&[u8]>) -> (r: Option<&[u8]>)
    ensures
        r is Some <==> given(variable),
        r is Some ==> r == variable,
{
    match variable {
        Some(value) => if value.len() > 0 {
            Some(value)
        } else {
            None
        },
        None => None,
    }
}

/// `$XDG_STATE_HOME/fut/<file_name>`, or `~/.local/state/fut/<file_name>`.
pub fn path_from(
    file_name: &[u8],
    xdg_state_home: Option<&[u8]>,
    home: Option<&[u8]>,
) -> (r: Result<Vec<u8>, LocationFault>)
    ensures
        match r {
            Ok(path) => location(file_name@, xdg_state_home, home) == Ok::<Seq<u8>, LocationFault>(
                path@,
            ),
            Err(fault) => location(file_name@, xdg_state_home, home) == Err::<
                Seq<u8>,
                LocationFault,
            >(fault),
        },
{
    if let Some(directory) = present(xdg_state_home) {
        if !is_absolute(directory) {
            return Err(LocationFault::RelativeStateHome);
        }
        let below: [u8; 3] = [102, 117, 116];
        proof {
            assert(below@ =~= state_directory());
        }
        return Ok(join(join(directory, below.as_slice()).as_slice(), file_name));
    }
    match present(home) {
        None => Err(LocationFault::NoHome),
        Some(directory) => {
            if !is_absolute(directory) {
                return Err(LocationFault::RelativeHome);
            }
            let below: [u8; 16] = [
                46,
                108,
                111,
                99,
                97,
                108,
                47,
                115,
                116,
                97,
                116,
                101,
                47,
                102,
                117,
                116,
            ];
            proof {
                assert(below@ =~= home_state_directory());
            }
            Ok(join(join(directory, below.as_slice()).as_slice(), file_name))
        },
    }
}

// ---------------------------------------------------------------------------
// Reading

/// What is known of an open file.
#[derive(Clone, Copy, Debug, PartialEq, Eq, Structural)]
pub struct FileMetadata {
    pub regular: bool,
    pub mode: u32,
    pub length: u64,
}

#[derive(Clone, Copy, Debug, PartialEq, Eq, Structural)]
pub enum ReadFault {
    NotRegular,
    Permissions,
    Length { length: u64, maximum: u64 },
    /// More bytes came than the metadata announced.
    Grown { maximum: u64 },
    NotText,
}

impl ReadFault {
    pub open spec fn wording(self, path: Seq<char>) -> Seq<char> {
        match self {
            ReadFault::NotRegular => path + " is not a regular file"@,
            ReadFault::Permissions => path + " must have permissions 0600"@,
            ReadFault::Length { length, maximum } => path + " is "@ + text::decimal(length as nat)
                + " bytes; maximum is "@ + text::decimal(maximum as nat),
            ReadFault::Grown { maximum } => path + " exceeds the "@ + text::decimal(maximum as nat)
                + "-byte maximum"@,
            ReadFault::NotText => path + " is not UTF-8"@,
        }
    }

    /// The fault of the file at `path`, in words.
    pub fn text(&self, path: &str) -> (r: String)
        ensures
            r@ == self.wording(path@),
    {
        match self {
            ReadFault::NotRegular => path.to_owned().concat(" is not a regular file"),
            ReadFault::Permissions => path.to_owned().concat(" must have permissions 0600"),
            ReadFault::Length { length, maximum } => path.to_owned().concat(" is ").concat(
                decimal_of(*length).as_str(),
            ).concat(" bytes; maximum is ").concat(decimal_of(*maximum).as_str()),
            ReadFault::Grown { maximum } => path.to_owned().concat(" exceeds the ").concat(
                decimal_of(*maximum).as_str(),
            ).concat("-byte maximum"),
            ReadFault::NotText => path.to_owned().concat(" is not UTF-8"),
        }
    }
}

/// Why an open file is not trusted, if so.
pub open spec fn metadata_fault(metadata: FileMetadata, maximum: u64) -> Option<ReadFault> {
    if !metadata.regular {
        Some(ReadFault::NotRegular)
    } else if metadata.mode & MODE_MASK != FILE_MODE {
        Some(ReadFault::Permissions)
    } else if metadata.length > maximum {
        Some(ReadFault::Length { length: metadata.length, maximum })
    } else {
        None
    }
}

/// Trusts an open file: a private regular one of bounded length. Other types,
/// permissions other than 0600, and longer files are rejected rather than
/// partially trusted.
pub fn inspect(metadata: FileMetadata, maximum: u64) -> (r: Result<(), ReadFault>)
    ensures
        match r {
            Ok(()) => metadata_fault(metadata, maximum) is None,
            Err(fault) => metadata_fault(metadata, maximum) == Some(fault),
        },
{
    if !metadata.regular {
        return Err(ReadFault::NotRegular);
    }
    if metadata.mode & MODE_MASK != FILE_MODE {
        return Err(ReadFault::Permissions);
    }
    if metadata.length > maximum {
        return Err(ReadFault::Length { length: metadata.length, maximum });
    }
    Ok(())
}

/// How many bytes are read at most: one more than allowed, so that a file that
/// has grown is noticed.
pub fn read_limit(maximum: u64) -> (r: u64)
    requires
        maximum < u64::MAX,
    ensures
        r == maximum + 1,
{
    maximum + 1
}

/// `String::from_utf8`: the text that the bytes encode, where they are UTF-8.
#[verifier::external_body]
fn decode(bytes: Vec<u8>) -> (r: Option<String>)
    ensures
        match r {
            Some(s) => vstd::utf8::encode_utf8(s@) == bytes@,
            None => !vstd::utf8::valid_utf8(bytes@),
        },
{
    String::from_utf8(bytes).ok()
}

/// `r` is what these bytes of a file read as.
pub open spec fn reads(bytes: Seq<u8>, maximum: u64, r: Result<String, ReadFault>) -> bool {
    match r {
        Ok(s) => bytes.len() <= maximum && vstd::utf8::encode_utf8(s@) == bytes,
        Err(ReadFault::Grown { maximum: limit }) => bytes.len() > maximum && limit == maximum,
        Err(fault) => fault == ReadFault::NotText && bytes.len() <= maximum
            && !vstd::utf8::valid_utf8(bytes),
    }
}

/// The text of a file, from the bytes that were read.
pub fn contents(bytes: Vec<u8>, maximum: u64) -> (r: Result<String, ReadFault>)
    ensures
        reads(bytes@, maximum, r),
{
    if bytes.len() as u64 > maximum {
        return Err(ReadFault::Grown { maximum });
    }
    match decode(bytes) {
        Some(s) => Ok(s),
        None => Err(ReadFault::NotText),
    }
}

// ---------------------------------------------------------------------------
// Writing

/// A text may be written where it is not longer than allowed.
pub fn check_length(contents: &str, maximum: u64) -> (r: bool)
    ensures
        r == (vstd::utf8::encode_utf8(contents@).len() <= maximum),
{
    contents.as_bytes().len() as u64 <= maximum
}

pub open spec fn length_wording(path: Seq<char>, maximum: u64) -> Seq<char> {
    "updated "@ + path + " exceeds the "@ + text::decimal(maximum as nat) + "-byte maximum"@
}

/// Why a text that is too long is not written.
pub fn length_text(path: &str, maximum: u64) -> (r: String)
    ensures
        r@ == length_wording(path@, maximum),
{
    "updated ".to_owned().concat(path).concat(" exceeds the ").concat(
        decimal_of(maximum).as_str(),
    ).concat("-byte maximum")
}

pub open spec fn temporary(name: Seq<char>, id: u128) -> Seq<char> {
    "."@ + name + "."@ + identity::written_id(id) + ".tmp"@
}

/// The name of the file that is written first, beside the one to replace.
pub fn temporary_name(name: &str, id: u128) -> (r: String)
    ensures
        r@ == temporary(name@, id),
{
    ".".to_owned().concat(name).concat(".").concat(write_id(id).as_str()).concat(".tmp")
}

/// The same under a fresh identity.
pub fn fresh_temporary_name(name: &str) -> (r: String)
    ensures
        exists|id: u128| identity::marked_random(id) && r@ == #[trigger] temporary(name@, id),
{
    let id: u128 = fresh_id();
    temporary_name(name, id)
}

/// The steps of a replacement, in order.
#[derive(Clone, Copy, Debug, PartialEq, Eq, Structural)]
pub enum WriteStep {
    /// Create the temporary file anew, private.
    Create,
    Secure,
    Write,
    Sync,
    /// Put the temporary file in the place of the old one.
    Rename,
    SyncDirectory,
}

#[derive(Clone, Copy, Debug, PartialEq, Eq, Structural)]
pub enum WriteAction {
    Perform(WriteStep),
    /// Remove the temporary file, whether or not that succeeds, and give up.
    RemoveAndFail(WriteStep),
    Done,
}

impl WriteStep {
    pub open spec fn following(self) -> Option<Self> {
        match self {
            WriteStep::Create => Some(WriteStep::Secure),
            WriteStep::Secure => Some(WriteStep::Write),
            WriteStep::Write => Some(WriteStep::Sync),
            WriteStep::Sync => Some(WriteStep::Rename),
            WriteStep::Rename => Some(WriteStep::SyncDirectory),
            WriteStep::SyncDirectory => None,
        }
    }

    /// What follows this step, given whether it succeeded. A replacement begins
    /// with `Create`.
    pub fn next(self, succeeded: bool) -> (r: WriteAction)
        ensures
            r == (if !succeeded {
                WriteAction::RemoveAndFail(self)
            } else {
                match self.following() {
                    Some(step) => WriteAction::Perform(step),
                    None => WriteAction::Done,
                }
            }),
    {
        if !succeeded {
            return WriteAction::RemoveAndFail(self);
        }
        match self {
            WriteStep::Create => WriteAction::Perform(WriteStep::Secure),
            WriteStep::Secure => WriteAction::Perform(WriteStep::Write),
            WriteStep::Write => WriteAction::Perform(WriteStep::Sync),
            WriteStep::Sync => WriteAction::Perform(WriteStep::Rename),
            WriteStep::Rename => WriteAction::Perform(WriteStep::SyncDirectory),
            WriteStep::SyncDirectory => WriteAction::Done,
        }
    }

    /// What the step does, before the file that it does it to.
    pub open spec fn wording(self) -> Seq<char> {
        match self {
            WriteStep::Create => "create "@,
            WriteStep::Secure => "secure "@,
            WriteStep::Write => "write "@,
            WriteStep::Sync => "sync "@,
            WriteStep::Rename => "atomically replace "@,
            WriteStep::SyncDirectory => "sync directory "@,
        }
    }

    pub fn text(self) -> (r: &'static str)
        ensures
            r@ == self.wording(),
    {
        match self {
            WriteStep::Create => "create ",
            WriteStep::Secure => "secure ",
            WriteStep::Write => "write ",
            WriteStep::Sync => "sync ",
            WriteStep::Rename => "atomically replace ",
            WriteStep::SyncDirectory => "sync directory ",
        }
    }
}

// ---------------------------------------------------------------------------
// Directories and locks

#[derive(Clone, Copy, Debug, PartialEq, Eq, Structural)]
pub enum ParentFault {
    Missing,
    NotDirectory,
}

/// The parent directory of a state file must be named.
pub fn check_parent(parent: Option<&[u8]>) -> (r: Result<(), ParentFault>)
    ensures
        match r {
            Ok(()) => given(parent),
            Err(fault) => !given(parent) && fault == ParentFault::Missing,
        },
{
    match present(parent) {
        Some(_) => Ok(()),
        None => Err(ParentFault::Missing),
    }
}

/// After it was created where missing, the parent must itself be a directory,
/// no link to one.
pub fn check_directory(is_directory: bool) -> (r: Result<(), ParentFault>)
    ensures
        match r {
            Ok(()) => is_directory,
            Err(fault) => !is_directory && fault == ParentFault::NotDirectory,
        },
{
    if is_directory {
        Ok(())
    } else {
        Err(ParentFault::NotDirectory)
    }
}

/// The steps that make a parent directory ready, in order.
#[derive(Clone, Copy, Debug, PartialEq, Eq, Structural)]
pub enum ParentStep {
    /// Create the directory, and those above it, where missing.
    Create,
    /// Look at what stands there, without following a link: a directory, or the
    /// step fails.
    Inspect,
    Secure,
}

#[derive(Clone, Copy, Debug, PartialEq, Eq, Structural)]
pub enum ParentAction {
    Perform(ParentStep),
    Fail(ParentStep),
    Done,
}

impl ParentStep {
    pub open spec fn following(self) -> Option<Self> {
        match self {
            ParentStep::Create => Some(ParentStep::Inspect),
            ParentStep::Inspect => Some(ParentStep::Secure),
            ParentStep::Secure => None,
        }
    }

    /// What follows this step, given whether it succeeded. `Create` is the first.
    pub fn next(self, succeeded: bool) -> (r: ParentAction)
        ensures
            r == (if !succeeded {
                ParentAction::Fail(self)
            } else {
                match self.following() {
                    Some(step) => ParentAction::Perform(step),
                    None => ParentAction::Done,
                }
            }),
    {
        if !succeeded {
            return ParentAction::Fail(self);
        }
        match self {
            ParentStep::Create => ParentAction::Perform(ParentStep::Inspect),
            ParentStep::Inspect => ParentAction::Perform(ParentStep::Secure),
            ParentStep::Secure => ParentAction::Done,
        }
    }

    /// What the step does, before the directory that it does it to.
    pub open spec fn wording(self) -> Seq<char> {
        match self {
            ParentStep::Create => "create directory "@,
            ParentStep::Inspect => "inspect directory "@,
            ParentStep::Secure => "secure directory "@,
        }
    }

    pub fn text(self) -> (r: &'static str)
        ensures
            r@ == self.wording(),
    {
        match self {
            ParentStep::Create => "create directory ",
            ParentStep::Inspect => "inspect directory ",
            ParentStep::Secure => "secure directory ",
        }
    }
}

/// Why a write does not begin.
#[derive(Clone, Copy, Debug, PartialEq, Eq, Structural)]
pub enum WriteRefusal {
    Length,
    Parent(ParentFault),
}

/// A text that is too long is refused first, then a path without a parent.
pub open spec fn write_refusal(
    contents: Seq<char>,
    maximum: u64,
    parent_named: bool,
) -> Option<WriteRefusal> {
    if vstd::utf8::encode_utf8(contents).len() > maximum {
        Some(WriteRefusal::Length)
    } else if !parent_named {
        Some(WriteRefusal::Parent(ParentFault::Missing))
    } else {
        None
    }
}

/// What an atomic replacement begins with, before anything is touched: the first
/// step of making its parent ready. `ParentStep::next` leads through those steps,
/// and `WriteStep::next` through the replacement after them.
pub fn write(contents: &str, maximum: u64, parent: Option<&[u8]>) -> (r: Result<
    ParentStep,
    WriteRefusal,
>)
    ensures
        match r {
            Ok(step) => step == ParentStep::Create && write_refusal(
                contents@,
                maximum,
                given(parent),
            ) is None,
            Err(refusal) => write_refusal(contents@, maximum, given(parent)) == Some(refusal),
        },
{
    if !check_length(contents, maximum) {
        return Err(WriteRefusal::Length);
    }
    match check_parent(parent) {
        Ok(()) => Ok(ParentStep::Create),
        Err(fault) => Err(WriteRefusal::Parent(fault)),
    }
}

impl ParentFault {
    pub open spec fn wording(self, path: Seq<char>) -> Seq<char> {
        match self {
            ParentFault::Missing => path + " must have a parent directory"@,
            ParentFault::NotDirectory => path + " is not a directory"@,
        }
    }

    /// The fault in words: `path` is the file that lacks a parent, or the parent
    /// that is no directory.
    pub fn text(&self, path: &str) -> (r: String)
        ensures
            r@ == self.wording(path@),
    {
        match self {
            ParentFault::Missing => path.to_owned().concat(" must have a parent directory"),
            ParentFault::NotDirectory => path.to_owned().concat(" is not a directory"),
        }
    }
}

/// What came of trying to take a lock.
#[derive(Clone, Copy, Debug, PartialEq, Eq, Structural)]
pub enum LockAttempt {
    Taken,
    Interrupted,
    WouldBlock,
    Failed,
}

#[derive(Clone, Copy, Debug, PartialEq, Eq, Structural)]
pub enum LockAction {
    Hold,
    Retry,
    /// Try again after a pause.
    Pause,
    Fail,
}

/// A waiting lock is tried again when a signal interrupts it.
pub fn waiting_lock(attempt: LockAttempt) -> (r: LockAction)
    ensures
        r == (match attempt {
            LockAttempt::Taken => LockAction::Hold,
            LockAttempt::Interrupted => LockAction::Retry,
            LockAttempt::WouldBlock => LockAction::Fail,
            LockAttempt::Failed => LockAction::Fail,
        }),
{
    match attempt {
        LockAttempt::Taken => LockAction::Hold,
        LockAttempt::Interrupted => LockAction::Retry,
        LockAttempt::WouldBlock | LockAttempt::Failed => LockAction::Fail,
    }
}

/// A lock that does not wait is tried again while another holds it.
pub fn polled_lock(attempt: LockAttempt) -> (r: LockAction)
    ensures
        r == (match attempt {
            LockAttempt::Taken => LockAction::Hold,
            LockAttempt::WouldBlock => LockAction::Pause,
            LockAttempt::Interrupted => LockAction::Fail,
            LockAttempt::Failed => LockAction::Fail,
        }),
{
    match attempt {
        LockAttempt::Taken => LockAction::Hold,
        LockAttempt::WouldBlock => LockAction::Pause,
        LockAttempt::Interrupted | LockAttempt::Failed => LockAction::Fail,
    }
}

pub fn lock_pause() -> (r: Duration)
    ensures
        r@ == 10_000_000,
{
    Duration::from_millis(10)
}

// ---------------------------------------------------------------------------
// Laws

/// What stands at a path.
pub enum Node {
    File { bytes: Seq<u8>, mode: u32 },
    Directory { mode: u32 },
    Link,
    Other,
}

/// What a write may touch: the file, its parent, the temporary file beside it,
/// and everything else, such as what a link at the file's path points to.
pub struct Disk {
    pub parent: Option<Node>,
    pub target: Option<Node>,
    pub temporary: Option<Node>,
    pub elsewhere: Map<Seq<u8>, Node>,
}

/// The modes that the system gives to what is newly created, whatever was asked.
pub struct Granted {
    pub directory: u32,
    pub file: u32,
}

pub open spec fn is_directory(node: Option<Node>) -> bool {
    node matches Some(Node::Directory { .. })
}

/// What a step of the parent does where it succeeds.
pub open spec fn parent_performed(disk: Disk, step: ParentStep, granted: Granted) -> Disk {
    match step {
        ParentStep::Create => if disk.parent is None {
            Disk { parent: Some(Node::Directory { mode: granted.directory }), ..disk }
        } else {
            disk
        },
        ParentStep::Inspect => disk,
        ParentStep::Secure => Disk {
            parent: Some(Node::Directory { mode: DIRECTORY_MODE }),
            ..disk
        },
    }
}

pub open spec fn parent_steps_left(step: ParentStep) -> nat {
    match step {
        ParentStep::Create => 2,
        ParentStep::Inspect => 1,
        ParentStep::Secure => 0,
    }
}

/// The disk after the parent's steps from `step` on, of which `failing` is the
/// first that the system lets fail, if any, and whether all succeeded. Looking at
/// anything but a directory fails, too.
pub open spec fn parent_prepared(
    disk: Disk,
    step: ParentStep,
    granted: Granted,
    failing: Option<ParentStep>,
) -> (Disk, bool)
    decreases parent_steps_left(step),
{
    if failing == Some(step) || (step == ParentStep::Inspect && !is_directory(disk.parent)) {
        (disk, false)
    } else {
        let after = parent_performed(disk, step, granted);
        match step.following() {
            Some(next) => parent_prepared(after, next, granted, failing),
            None => (after, true),
        }
    }
}

/// What a step of the replacement does where it succeeds.
pub open spec fn performed(
    disk: Disk,
    step: WriteStep,
    contents: Seq<u8>,
    granted: Granted,
) -> Disk {
    match step {
        WriteStep::Create => Disk {
            temporary: Some(Node::File { bytes: seq![], mode: granted.file }),
            ..disk
        },
        WriteStep::Secure => match disk.temporary {
            Some(Node::File { bytes, .. }) => Disk {
                temporary: Some(Node::File { bytes, mode: FILE_MODE }),
                ..disk
            },
            _ => disk,
        },
        WriteStep::Write => match disk.temporary {
            Some(Node::File { mode, .. }) => Disk {
                temporary: Some(Node::File { bytes: contents, mode }),
                ..disk
            },
            _ => disk,
        },
        WriteStep::Rename => Disk { target: disk.temporary, temporary: None, ..disk },
        WriteStep::Sync | WriteStep::SyncDirectory => disk,
    }
}

pub open spec fn steps_left(step: WriteStep) -> nat {
    match step {
        WriteStep::Create => 5,
        WriteStep::Secure => 4,
        WriteStep::Write => 3,
        WriteStep::Sync => 2,
        WriteStep::Rename => 1,
        WriteStep::SyncDirectory => 0,
    }
}

/// What is left of a node once it has been removed as a file: a directory stays.
pub open spec fn removed(node: Option<Node>) -> Option<Node> {
    if is_directory(node) {
        node
    } else {
        None
    }
}

/// What stands on the disk makes a step fail: nothing is created over what stands
/// under the temporary name already, and no file replaces a directory.
pub open spec fn blocked(disk: Disk, step: WriteStep) -> bool {
    match step {
        WriteStep::Create => disk.temporary is Some,
        WriteStep::Rename => is_directory(disk.target),
        _ => false,
    }
}

/// The disk after a replacement from `step` on, of which `failing` is the first
/// step that the system lets fail, if any. A step that fails leaves the temporary
/// file in whatever state and everything else alone; the temporary file is then
/// removed.
pub open spec fn replaced(
    disk: Disk,
    step: WriteStep,
    contents: Seq<u8>,
    granted: Granted,
    failing: Option<WriteStep>,
) -> Disk
    decreases steps_left(step),
{
    if failing == Some(step) || blocked(disk, step) {
        Disk { temporary: removed(disk.temporary), ..disk }
    } else {
        let after = performed(disk, step, contents, granted);
        match step.following() {
            Some(next) => replaced(after, next, contents, granted, failing),
            None => after,
        }
    }
}

/// Nothing on the disk stands in the way of a replacement.
pub open spec fn can_replace(disk: Disk) -> bool {
    disk.temporary is None && !is_directory(disk.target)
}

/// The file that a write leaves: a regular one of exactly these bytes, private.
pub open spec fn private_file(bytes: Seq<u8>) -> Option<Node> {
    Some(Node::File { bytes, mode: FILE_MODE })
}

/// A file is replaced as a whole or not at all: what stands at its path is the
/// private new file once the rename has succeeded, and what stood there
/// otherwise. A link is itself replaced, and what it points to stays, as does
/// everything else; a directory stays and makes the replacement fail. The
/// temporary file never remains, nor does another file that stood under its name,
/// which makes the replacement fail, too.
pub proof fn law_replacement_is_atomic(
    disk: Disk,
    contents: Seq<u8>,
    granted: Granted,
    failing: Option<WriteStep>,
)
    ensures
        ({
            let after = replaced(disk, WriteStep::Create, contents, granted, failing);
            &&& after.temporary == removed(disk.temporary)
            &&& after.parent == disk.parent
            &&& after.elsewhere == disk.elsewhere
            &&& after.target == (if can_replace(disk) && (failing is None || failing == Some(
                WriteStep::SyncDirectory,
            )) {
                private_file(contents)
            } else {
                disk.target
            })
        }),
{
    let created = performed(disk, WriteStep::Create, contents, granted);
    let secured = performed(created, WriteStep::Secure, contents, granted);
    let written = performed(secured, WriteStep::Write, contents, granted);
    let synced = performed(written, WriteStep::Sync, contents, granted);
    let renamed = performed(synced, WriteStep::Rename, contents, granted);
    let end = replaced(renamed, WriteStep::SyncDirectory, contents, granted, failing);
    assert(end.target == private_file(contents) && end.temporary is None);
    let renaming = replaced(synced, WriteStep::Rename, contents, granted, failing);
    let syncing = replaced(written, WriteStep::Sync, contents, granted, failing);
    let writing = replaced(secured, WriteStep::Write, contents, granted, failing);
    let securing = replaced(created, WriteStep::Secure, contents, granted, failing);
    let creating = replaced(disk, WriteStep::Create, contents, granted, failing);
    if disk.temporary is None {
        match failing {
            None => {
                assert(creating == renaming);
            },
            Some(step) => match step {
                WriteStep::Create => {},
                WriteStep::Secure => {
                    assert(creating == securing);
                },
                WriteStep::Write => {
                    assert(creating == writing);
                },
                WriteStep::Sync => {
                    assert(creating == syncing);
                },
                WriteStep::Rename => {
                    assert(creating == renaming);
                },
                WriteStep::SyncDirectory => {
                    assert(creating == renaming);
                },
            },
        }
    }
}

/// The type bits of a regular file's mode.
pub const REGULAR_TYPE: u32 = 0o100000;

/// What is known of a node once it is open.
pub open spec fn metadata_of(node: Node) -> FileMetadata {
    match node {
        Node::File { bytes, mode } => FileMetadata {
            regular: true,
            mode: REGULAR_TYPE | mode,
            length: bytes.len() as u64,
        },
        Node::Directory { mode } => FileMetadata { regular: false, mode, length: 0 },
        _ => FileMetadata { regular: false, mode: 0, length: 0 },
    }
}

/// What stands at a path is trusted, and reads as this text.
pub open spec fn reads_as(node: Option<Node>, maximum: u64, contents: Seq<char>) -> bool {
    node matches Some(node) && metadata_fault(metadata_of(node), maximum) is None && (
    node matches Node::File { bytes, .. } && bytes.len() <= maximum && vstd::utf8::encode_utf8(
        contents,
    ) == bytes)
}

/// The disk after a write, and whether it succeeded. `parent_failing` and
/// `failing` are the steps that the system lets fail, if any.
pub open spec fn written(
    disk: Disk,
    contents: Seq<char>,
    maximum: u64,
    parent_named: bool,
    granted: Granted,
    parent_failing: Option<ParentStep>,
    failing: Option<WriteStep>,
) -> (Disk, bool) {
    if write_refusal(contents, maximum, parent_named) is Some {
        (disk, false)
    } else {
        let (ready, prepared) = parent_prepared(disk, ParentStep::Create, granted, parent_failing);
        if prepared {
            let bytes = vstd::utf8::encode_utf8(contents);
            (
                replaced(ready, WriteStep::Create, bytes, granted, failing),
                failing is None && can_replace(ready),
            )
        } else {
            (ready, false)
        }
    }
}

/// A write succeeds exactly when it is not refused, no step fails, nothing stands
/// under the temporary name, no directory stands at the path, and the parent is a
/// directory or missing. It then leaves a private regular file of exactly the
/// contents in a private directory, and a read within the same maximum gives the
/// contents back. One of contents that are too long touches nothing. One that
/// fails leaves what stood at the path, but for the whole new file where only the
/// directory could not be synced; the path never holds a part of the contents.
/// Whatever happens, no temporary file is added and nothing elsewhere changes, so
/// a link at the path is itself replaced.
pub proof fn law_a_write_is_read_back_or_changes_nothing(
    disk: Disk,
    contents: Seq<char>,
    maximum: u64,
    parent_named: bool,
    granted: Granted,
    parent_failing: Option<ParentStep>,
    failing: Option<WriteStep>,
)
    ensures
        ({
            let bytes = vstd::utf8::encode_utf8(contents);
            let (after, succeeded) = written(
                disk,
                contents,
                maximum,
                parent_named,
                granted,
                parent_failing,
                failing,
            );
            &&& after.temporary == disk.temporary || after.temporary == removed(disk.temporary)
            &&& after.elsewhere == disk.elsewhere
            &&& succeeded <==> {
                &&& write_refusal(contents, maximum, parent_named) is None
                &&& parent_failing is None
                &&& failing is None
                &&& can_replace(disk)
                &&& disk.parent is None || is_directory(disk.parent)
            }
            &&& bytes.len() > maximum ==> !succeeded && after == disk
            &&& succeeded ==> {
                &&& after.temporary is None
                &&& after.target == private_file(bytes)
                &&& after.parent == Some(Node::Directory { mode: DIRECTORY_MODE })
                &&& reads_as(after.target, maximum, contents)
                &&& forall|read: Seq<char>| #[trigger]
                    reads_as(after.target, maximum, read) ==> read == contents
            }
            &&& !succeeded ==> after.target == disk.target || (failing == Some(
                WriteStep::SyncDirectory,
            ) && after.target == private_file(bytes))
        }),
{
    let bytes = vstd::utf8::encode_utf8(contents);
    let (ready, prepared) = parent_prepared(disk, ParentStep::Create, granted, parent_failing);
    lemma_parent_prepared(disk, granted, parent_failing);
    law_replacement_is_atomic(ready, bytes, granted, failing);
    vstd::utf8::encode_utf8_decode_utf8(contents);
    assert((0o100000u32 | 0o600u32) & 0o7777u32 == 0o600u32) by (bit_vector);
    if bytes.len() <= maximum {
        assert(reads_as(private_file(bytes), maximum, contents));
        assert forall|read: Seq<char>| #[trigger]
            reads_as(private_file(bytes), maximum, read) implies read == contents by {
            vstd::utf8::encode_utf8_decode_utf8(read);
        }
    }
}

/// Making a parent ready touches the parent alone and, where it succeeds, leaves
/// a private directory.
proof fn lemma_parent_prepared(disk: Disk, granted: Granted, failing: Option<ParentStep>)
    ensures
        ({
            let (ready, prepared) = parent_prepared(disk, ParentStep::Create, granted, failing);
            &&& ready.target == disk.target
            &&& ready.temporary == disk.temporary
            &&& ready.elsewhere == disk.elsewhere
            &&& prepared <==> failing is None && (disk.parent is None || is_directory(disk.parent))
            &&& prepared ==> ready.parent == Some(Node::Directory { mode: DIRECTORY_MODE })
        }),
{
    let created = parent_performed(disk, ParentStep::Create, granted);
    let inspecting = parent_prepared(created, ParentStep::Inspect, granted, failing);
    let securing = parent_prepared(created, ParentStep::Secure, granted, failing);
    match failing {
        None => {
            assert(securing.1);
        },
        Some(step) => match step {
            ParentStep::Create => {},
            ParentStep::Inspect => {
                assert(!inspecting.1);
            },
            ParentStep::Secure => {
                assert(!securing.1);
            },
        },
    }
    assert(inspecting == securing || inspecting == (created, false));
}

/// A state file stands below an absolute directory, so its path is absolute.
pub proof fn law_locations_are_absolute(
    file_name: Seq<u8>,
    xdg_state_home: Option<&[u8]>,
    home: Option<&[u8]>,
)
    ensures
        location(file_name, xdg_state_home, home) matches Ok(path) ==> absolute(path),
        given(xdg_state_home) ==> location(file_name, xdg_state_home, home) == location(
            file_name,
            xdg_state_home,
            None,
        ),
{
}

/// A relative path stands below its base, with exactly one separator between; an
/// absolute path stands for itself.
pub proof fn law_paths_are_joined_by_one_separator(base: Seq<u8>, path: Seq<u8>)
    ensures
        path.len() > 0 && path[0] == 47 ==> joined(base, path) == path,
        base.len() > 0 && base.last() != 47 && (path.len() == 0 || path[0] != 47) ==> joined(
            base,
            path,
        ) == base + seq![47u8] + path,
        base.len() > 0 && base.last() == 47 && (path.len() == 0 || path[0] != 47) ==> joined(
            base,
            path,
        ) == base + path,
{
    if base.len() > 0 && base.last() != 47 && (path.len() == 0 || path[0] != 47) {
        assert(base.push(SLASH) + path =~= base + seq![47u8] + path);
    }
}

/// A state file stands in `fut` below the state home where that is set, and in
/// `.local/state/fut` below the home where it is not. A home that is set but not
/// absolute is an error of its own, whatever the other one is.
pub proof fn law_a_state_file_stands_below_its_home(
    file_name: Seq<u8>,
    xdg_state_home: Option<&[u8]>,
    home: Option<&[u8]>,
)
    requires
        file_name.len() > 0,
        file_name[0] != 47,
    ensures
        ({
            let place = location(file_name, xdg_state_home, home);
            let fut = seq![102u8, 117, 116, 47];
            let local = seq![46u8, 108, 111, 99, 97, 108, 47, 115, 116, 97, 116, 101, 47];
            let by_state = xdg_state_home matches Some(directory) && directory@.len() > 0;
            let by_home = home matches Some(directory) && directory@.len() > 0;
            &&& by_state ==> {
                let directory = (xdg_state_home->0)@;
                let base = if directory.last() == 47 {
                    directory
                } else {
                    directory.push(47)
                };
                place == (if directory[0] == 47 {
                    Ok::<Seq<u8>, LocationFault>(base + fut + file_name)
                } else {
                    Err::<Seq<u8>, LocationFault>(LocationFault::RelativeStateHome)
                })
            }
            &&& !by_state && by_home ==> {
                let directory = (home->0)@;
                let base = if directory.last() == 47 {
                    directory
                } else {
                    directory.push(47)
                };
                place == (if directory[0] == 47 {
                    Ok::<Seq<u8>, LocationFault>(base + local + fut + file_name)
                } else {
                    Err::<Seq<u8>, LocationFault>(LocationFault::RelativeHome)
                })
            }
            &&& !by_state && !by_home ==> place == Err::<Seq<u8>, LocationFault>(
                LocationFault::NoHome,
            )
        }),
{
    let fut = seq![102u8, 117, 116, 47];
    let local = seq![46u8, 108, 111, 99, 97, 108, 47, 115, 116, 97, 116, 101, 47];
    if given(xdg_state_home) {
        let directory = (xdg_state_home->0)@;
        let base = if directory.last() == 47 {
            directory
        } else {
            directory.push(47)
        };
        if absolute(directory) {
            assert(joined(directory, state_directory()) =~= base + state_directory());
            assert(joined(directory, state_directory()).last() == 116);
            assert(joined(joined(directory, state_directory()), file_name) =~= base + fut
                + file_name);
        }
    } else if given(home) {
        let directory = (home->0)@;
        let base = if directory.last() == 47 {
            directory
        } else {
            directory.push(47)
        };
        if absolute(directory) {
            assert(joined(directory, home_state_directory()) =~= base + home_state_directory());
            assert(joined(directory, home_state_directory()).last() == 116);
            assert(joined(joined(directory, home_state_directory()), file_name) =~= base + local
                + fut + file_name);
        }
    }
}

/// A file is trusted exactly when it is a regular one, its owner alone may read and
/// write it and no special bit is set, and it is no longer than allowed. Of several
/// rules that it breaks the first in this order is named.
pub proof fn law_only_private_bounded_files_are_trusted(metadata: FileMetadata, maximum: u64)
    ensures
        ({
            let fault = metadata_fault(metadata, maximum);
            let private = metadata.mode % 0o10000 == 0o600;
            let bounded = metadata.length <= maximum;
            &&& fault is None <==> metadata.regular && private && bounded
            &&& fault == Some(ReadFault::NotRegular) <==> !metadata.regular
            &&& fault == Some(ReadFault::Permissions) <==> metadata.regular && !private
            &&& metadata.regular && private && !bounded ==> fault == Some(
                ReadFault::Length { length: metadata.length, maximum },
            )
        }),
{
    let mode = metadata.mode;
    assert(mode & 0o7777u32 == mode % 0o10000u32) by (bit_vector);
}

/// A replacement goes through all its steps, in this order: nothing shows before it
/// is private, complete and synced, and the rename is synced after it. A parent is
/// looked at before it is secured.
pub proof fn law_nothing_shows_before_it_is_synced()
    ensures
        WriteStep::Create.following() == Some(WriteStep::Secure),
        WriteStep::Secure.following() == Some(WriteStep::Write),
        WriteStep::Write.following() == Some(WriteStep::Sync),
        WriteStep::Sync.following() == Some(WriteStep::Rename),
        WriteStep::Rename.following() == Some(WriteStep::SyncDirectory),
        WriteStep::SyncDirectory.following() is None,
        ParentStep::Create.following() == Some(ParentStep::Inspect),
        ParentStep::Inspect.following() == Some(ParentStep::Secure),
        ParentStep::Secure.following() is None,
{
}

/// A temporary file stands beside the file that it will replace, hidden, and never
/// under that file's own name.
pub proof fn law_a_temporary_name_is_hidden_and_another(name: Seq<char>, id: u128)
    ensures
        temporary(name, id).len() == name.len() + 42,
        temporary(name, id)[0] == '.',
        temporary(name, id).subrange(1, name.len() as int + 1) == name,
        temporary(name, id).subrange(name.len() as int + 2, name.len() as int + 38)
            == identity::written_id(id),
        temporary(name, id).skip(name.len() as int + 38) == seq!['.', 't', 'm', 'p'],
        temporary(name, id) != name,
{
    reveal_strlit(".");
    reveal_strlit(".tmp");
    assert(temporary(name, id).subrange(1, name.len() as int + 1) =~= name);
    assert(temporary(name, id).subrange(name.len() as int + 2, name.len() as int + 38)
        =~= identity::written_id(id));
    assert(temporary(name, id).skip(name.len() as int + 38) =~= seq!['.', 't', 'm', 'p']);
}

/// A write is refused exactly for its length or for a missing parent, and for its
/// length first.
pub proof fn law_a_write_is_refused_for_length_or_parent(
    contents: Seq<char>,
    maximum: u64,
    parent_named: bool,
)
    ensures
        ({
            let bytes = vstd::utf8::encode_utf8(contents).len();
            let refusal = write_refusal(contents, maximum, parent_named);
            &&& refusal == Some(WriteRefusal::Length) <==> bytes > maximum
            &&& refusal == Some(WriteRefusal::Parent(ParentFault::Missing)) <==> bytes <= maximum
                && !parent_named
            &&& refusal is None <==> bytes <= maximum && parent_named
        }),
{
}

/// What is private is so for its owner alone.
pub proof fn law_modes_grant_the_owner_alone()
    ensures
        FILE_MODE == 0o600,
        DIRECTORY_MODE == 0o700,
{
}

/// The bytes of every text read as that text, as long as there are no more of them
/// than allowed; one more makes them too many, whatever they encode.
pub proof fn law_a_text_reads_back_from_its_bytes(
    contents: Seq<char>,
    bytes: Seq<u8>,
    maximum: u64,
    r: Result<String, ReadFault>,
)
    requires
        reads(bytes, maximum, r),
    ensures
        bytes.len() > maximum <==> (r matches Err(ReadFault::Grown { .. })),
        bytes == vstd::utf8::encode_utf8(contents) && bytes.len() <= maximum ==> (r matches Ok(text)
            && text@ == contents),
        bytes.len() <= maximum && !vstd::utf8::valid_utf8(bytes) ==> r == Err::<String, ReadFault>(
            ReadFault::NotText,
        ),
{
    vstd::utf8::encode_utf8_decode_utf8(contents);
    vstd::utf8::encode_utf8_valid_utf8(contents);
    if r is Ok {
        vstd::utf8::encode_utf8_decode_utf8((r->Ok_0)@);
        vstd::utf8::encode_utf8_valid_utf8((r->Ok_0)@);
    }
}

} // verus!
