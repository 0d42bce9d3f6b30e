//! Saved SSH machine profiles: a private, versioned catalog of remote endpoints.
//!
//! A profile stores only an opaque identity, a unique label, the SSH target,
//! and whether it is enabled. Credentials, keys, agent and control sockets
//! stay with OpenSSH. Nothing here contacts a daemon or SSH, nor the disk: the
//! caller reads the catalog, hands it in, and writes back what comes out.

use vstd::prelude::*;

use crate::identity::{self, fresh_id, parse_id, write_id};
use crate::ssh_bridge::{self, validate_destination, DestinationFault};
use crate::text::{self, chars_of, decimal_of, is_control, is_whitespace, quoted, same_text};

verus! {

pub const CATALOG_VERSION: u8 = 1;

pub const MAX_CATALOG_BYTES: u64 = 262_144;

pub const MAX_MACHINES: usize = 256;

pub const MAX_LABEL_BYTES: usize = 64;

#[derive(Debug, PartialEq, Eq)]
pub struct Machine {
    pub id: u128,
    pub label: String,
    pub target: String,
    pub enabled: bool,
}

impl Clone for Machine {
    fn clone(&self) -> (r: Self)
        ensures
            r == *self,
    {
        Machine {
            id: self.id,
            label: self.label.clone(),
            target: self.target.clone(),
            enabled: self.enabled,
        }
    }
}

/// A profile with its texts as sequences of characters.
pub struct Profile {
    pub id: u128,
    pub label: Seq<char>,
    pub target: Seq<char>,
    pub enabled: bool,
}

impl View for Machine {
    type V = Profile;

    open spec fn view(&self) -> Profile {
        Profile { id: self.id, label: self.label@, target: self.target@, enabled: self.enabled }
    }
}

pub open spec fn profiles(machines: Seq<Machine>) -> Seq<Profile> {
    machines.map_values(|m: Machine| m@)
}

#[derive(Debug)]
pub struct CatalogFile {
    pub version: u8,
    pub machines: Vec<Machine>,
}

#[derive(Debug)]
pub struct Change {
    pub machine: Machine,
    pub changed: bool,
}

/// A rule that a label or a catalog breaks.
#[derive(Debug, PartialEq, Eq)]
pub enum Fault {
    Version(u8),
    TooManyMachines,
    LabelLength,
    LabelDash,
    LabelCharacters,
    LabelUuid,
    Destination(DestinationFault),
    DuplicateId(u128),
    DuplicateLabel(String),
}

/// A fault with its label as a sequence of characters.
pub enum FaultModel {
    Version(u8),
    TooManyMachines,
    LabelLength,
    LabelDash,
    LabelCharacters,
    LabelUuid,
    Destination(DestinationFault),
    DuplicateId(u128),
    DuplicateLabel(Seq<char>),
}

impl View for Fault {
    type V = FaultModel;

    open spec fn view(&self) -> FaultModel {
        match self {
            Fault::Version(version) => FaultModel::Version(*version),
            Fault::TooManyMachines => FaultModel::TooManyMachines,
            Fault::LabelLength => FaultModel::LabelLength,
            Fault::LabelDash => FaultModel::LabelDash,
            Fault::LabelCharacters => FaultModel::LabelCharacters,
            Fault::LabelUuid => FaultModel::LabelUuid,
            Fault::Destination(fault) => FaultModel::Destination(*fault),
            Fault::DuplicateId(id) => FaultModel::DuplicateId(*id),
            Fault::DuplicateLabel(label) => FaultModel::DuplicateLabel(label@),
        }
    }
}

#[derive(Debug, PartialEq, Eq)]
pub enum Error {
    NotFound(String),
    LabelTaken(String),
    Full,
    Invalid(Fault),
}

/// An error with its texts as sequences of characters.
pub enum ErrorModel {
    NotFound(Seq<char>),
    LabelTaken(Seq<char>),
    Full,
    Invalid(FaultModel),
}

impl View for Error {
    type V = ErrorModel;

    open spec fn view(&self) -> ErrorModel {
        match self {
            Error::NotFound(selector) => ErrorModel::NotFound(selector@),
            Error::LabelTaken(label) => ErrorModel::LabelTaken(label@),
            Error::Full => ErrorModel::Full,
            Error::Invalid(fault) => ErrorModel::Invalid(fault@),
        }
    }
}

impl FaultModel {
    pub open spec fn wording(self) -> Seq<char> {
        match self {
            FaultModel::Version(version) => "unsupported machine catalog version "@
                + text::decimal(version as nat) + "; expected 1"@,
            FaultModel::TooManyMachines => "machine catalog contains more than 256 machines"@,
            FaultModel::LabelLength => "machine label must be 1 to 64 bytes"@,
            FaultModel::LabelDash => "machine label must not start with a dash"@,
            FaultModel::LabelCharacters =>
                "machine label must not contain whitespace or control characters"@,
            FaultModel::LabelUuid => "machine label must not be a UUID"@,
            FaultModel::Destination(fault) => fault.wording(),
            FaultModel::DuplicateId(id) => "machine catalog contains duplicate id "@
                + identity::written_id(id),
            FaultModel::DuplicateLabel(label) => "machine catalog contains duplicate label "@
                + text::quoted_text(label),
        }
    }
}

impl Fault {
    /// The fault in words.
    pub fn text(&self) -> (r: String)
        ensures
            r@ == self@.wording(),
    {
        match self {
            Fault::Version(version) => "unsupported machine catalog version ".to_owned().concat(
                decimal_of(*version as u64).as_str(),
            ).concat("; expected 1"),
            Fault::TooManyMachines => "machine catalog contains more than 256 machines".to_owned(),
            Fault::LabelLength => "machine label must be 1 to 64 bytes".to_owned(),
            Fault::LabelDash => "machine label must not start with a dash".to_owned(),
            Fault::LabelCharacters =>
                "machine label must not contain whitespace or control characters".to_owned(),
            Fault::LabelUuid => "machine label must not be a UUID".to_owned(),
            Fault::Destination(fault) => fault.text().to_owned(),
            Fault::DuplicateId(id) => "machine catalog contains duplicate id ".to_owned().concat(
                write_id(*id).as_str(),
            ),
            Fault::DuplicateLabel(label) =>
                "machine catalog contains duplicate label ".to_owned().concat(
                quoted(label.as_str()).as_str(),
            ),
        }
    }
}

impl ErrorModel {
    pub open spec fn wording(self) -> Seq<char> {
        match self {
            ErrorModel::NotFound(selector) => "no saved machine matches "@ + text::quoted_text(
                selector,
            ),
            ErrorModel::LabelTaken(label) => "a saved machine is already labeled "@
                + text::quoted_text(label),
            ErrorModel::Full => "the machine catalog cannot contain more than 256 machines"@,
            ErrorModel::Invalid(fault) => fault.wording(),
        }
    }
}

impl Error {
    /// The error in words.
    pub fn text(&self) -> (r: String)
        ensures
            r@ == self@.wording(),
    {
        match self {
            Error::NotFound(selector) => "no saved machine matches ".to_owned().concat(
                quoted(selector.as_str()).as_str(),
            ),
            Error::LabelTaken(label) => "a saved machine is already labeled ".to_owned().concat(
                quoted(label.as_str()).as_str(),
            ),
            Error::Full => "the machine catalog cannot contain more than 256 machines".to_owned(),
            Error::Invalid(fault) => fault.text(),
        }
    }
}

// ---------------------------------------------------------------------------
// Labels and targets

pub open spec fn blank_or_control(c: char) -> bool {
    text::white_space(c) || text::control(c)
}

/// The first rule that a label breaks, if any; `id` is what the label reads as
/// an identity.
pub open spec fn label_fault_given(label: Seq<char>, id: Option<u128>) -> Option<FaultModel> {
    let bytes = vstd::utf8::encode_utf8(label).len();
    if bytes == 0 || bytes > MAX_LABEL_BYTES {
        Some(FaultModel::LabelLength)
    } else if text::begins_with(label, '-') {
        Some(FaultModel::LabelDash)
    } else if exists|i: int| 0 <= i < label.len() && blank_or_control(#[trigger] label[i]) {
        Some(FaultModel::LabelCharacters)
    } else if id is Some {
        Some(FaultModel::LabelUuid)
    } else {
        None
    }
}

pub open spec fn label_fault(label: Seq<char>) -> Option<FaultModel> {
    label_fault_given(label, identity::parsed_id(label))
}

pub open spec fn target_fault(target: Seq<char>) -> Option<FaultModel> {
    match ssh_bridge::destination_fault(target) {
        Some(fault) => Some(FaultModel::Destination(fault)),
        None => None,
    }
}

/// A label is 1 to 64 bytes, starts with no dash, holds neither white space nor
/// control characters, and does not read as an identity.
pub fn validate_label(label: &str) -> (r: Result<(), Fault>)
    ensures
        match r {
            Ok(()) => label_fault(label@) is None,
            Err(fault) => label_fault(label@) == Some(fault@),
        },
{
    let id = parse_id(label);
    check_label(label, id)
}

/// The rules on a label, given what it reads as an identity.
pub fn check_label(label: &str, id: Option<u128>) -> (r: Result<(), Fault>)
    ensures
        match r {
            Ok(()) => label_fault_given(label@, id) is None,
            Err(fault) => label_fault_given(label@, id) == Some(fault@),
        },
{
    let bytes: usize = label.as_bytes().len();
    if bytes == 0 || bytes > MAX_LABEL_BYTES {
        return Err(Fault::LabelLength);
    }
    let chars = chars_of(label);
    if chars.len() > 0 && chars[0] == '-' {
        return Err(Fault::LabelDash);
    }
    let mut i: usize = 0;
    while i < chars.len()
        invariant
            chars@ == label@,
            0 < vstd::utf8::encode_utf8(label@).len() <= MAX_LABEL_BYTES,
            !text::begins_with(label@, '-'),
            i <= chars.len(),
            forall|k: int| 0 <= k < i ==> !blank_or_control(#[trigger] label@[k]),
        decreases chars.len() - i,
    {
        if is_whitespace(chars[i]) || is_control(chars[i]) {
            proof {
                assert(blank_or_control(label@[i as int]));
            }
            return Err(Fault::LabelCharacters);
        }
        i += 1;
    }
    match id {
        Some(_) => Err(Fault::LabelUuid),
        None => Ok(()),
    }
}

pub open spec fn profile_fault(label: Seq<char>, target: Seq<char>) -> Option<FaultModel> {
    match label_fault(label) {
        Some(fault) => Some(fault),
        None => target_fault(target),
    }
}

/// The label first, then the target.
pub fn validate_profile(label: &str, target: &str) -> (r: Result<(), Error>)
    ensures
        match r {
            Ok(()) => profile_fault(label@, target@) is None,
            Err(error) => profile_fault(label@, target@) matches Some(fault) && error@
                == ErrorModel::Invalid(fault),
        },
{
    match validate_label(label) {
        Err(fault) => Err(Error::Invalid(fault)),
        Ok(()) => match validate_destination(target) {
            Err(fault) => Err(Error::Invalid(Fault::Destination(fault))),
            Ok(()) => Ok(()),
        },
    }
}

// ---------------------------------------------------------------------------
// Catalogs

/// Some profile in `list` has this identity.
pub open spec fn has_id(list: Seq<Profile>, id: u128) -> bool {
    exists|i: int| 0 <= i < list.len() && (#[trigger] list[i]).id == id
}

/// Some profile in `list` has this label.
pub open spec fn has_label(list: Seq<Profile>, label: Seq<char>) -> bool {
    exists|i: int| 0 <= i < list.len() && (#[trigger] list[i]).label == label
}

/// The first rule broken by profile `i` of a catalog: its label, its target,
/// then an identity or a label that an earlier profile has.
pub open spec fn entry_fault(list: Seq<Profile>, i: int) -> Option<FaultModel> {
    let entry = list[i];
    if label_fault(entry.label) is Some {
        label_fault(entry.label)
    } else if target_fault(entry.target) is Some {
        target_fault(entry.target)
    } else if has_id(list.take(i), entry.id) {
        Some(FaultModel::DuplicateId(entry.id))
    } else if has_label(list.take(i), entry.label) {
        Some(FaultModel::DuplicateLabel(entry.label))
    } else {
        None
    }
}

/// `fault` is what the first faulty profile of the catalog breaks.
pub open spec fn first_entry_fault(list: Seq<Profile>, fault: FaultModel) -> bool {
    exists|i: int|
        0 <= i < list.len() && #[trigger] entry_fault(list, i) == Some(fault) && forall|j: int|
            0 <= j < i ==> #[trigger] entry_fault(list, j) is None
}

/// At most 256 profiles, each with a proper label and target, and no two with
/// one identity or one label.
pub open spec fn valid_catalog(list: Seq<Profile>) -> bool {
    &&& list.len() <= MAX_MACHINES
    &&& forall|i: int|
        0 <= i < list.len() ==> label_fault((#[trigger] list[i]).label) is None && target_fault(
            list[i].target,
        ) is None
    &&& forall|i: int, j: int|
        0 <= i < j < list.len() ==> (#[trigger] list[i]).id != (#[trigger] list[j]).id
            && list[i].label != list[j].label
}

pub proof fn lemma_valid_iff_no_entry_fault(list: Seq<Profile>)
    requires
        list.len() <= MAX_MACHINES,
    ensures
        valid_catalog(list) <==> forall|i: int|
            0 <= i < list.len() ==> #[trigger] entry_fault(list, i) is None,
{
    if valid_catalog(list) {
        assert forall|i: int| 0 <= i < list.len() implies #[trigger] entry_fault(
            list,
            i,
        ) is None by {
            assert(label_fault(list[i].label) is None);
            let before = list.take(i);
            assert(forall|k: int| 0 <= k < i ==> #[trigger] before[k] == list[k]);
        }
    }
    if forall|i: int| 0 <= i < list.len() ==> #[trigger] entry_fault(list, i) is None {
        assert forall|i: int| 0 <= i < list.len() implies label_fault(
            (#[trigger] list[i]).label,
        ) is None && target_fault(list[i].target) is None by {
            assert(entry_fault(list, i) is None);
        }
        assert forall|i: int, j: int| 0 <= i < j < list.len() implies (#[trigger] list[i]).id != (
        #[trigger] list[j]).id && list[i].label != list[j].label by {
            assert(entry_fault(list, j) is None);
            assert(list.take(j)[i] == list[i]);
        }
    }
}

/// Rejects a catalog whole: by its version, by its size, then by its first
/// faulty profile.
pub fn validate_catalog(file: &CatalogFile) -> (r: Result<(), Fault>)
    ensures
        match r {
            Ok(()) => file.version == CATALOG_VERSION && valid_catalog(profiles(file.machines@)),
            Err(fault) => if file.version != CATALOG_VERSION {
                fault@ == FaultModel::Version(file.version)
            } else if file.machines@.len() > MAX_MACHINES {
                fault@ == FaultModel::TooManyMachines
            } else {
                first_entry_fault(profiles(file.machines@), fault@)
            },
        },
        r is Ok <==> file.version == CATALOG_VERSION && valid_catalog(profiles(file.machines@)),
{
    if file.version != CATALOG_VERSION {
        return Err(Fault::Version(file.version));
    }
    if file.machines.len() > MAX_MACHINES {
        return Err(Fault::TooManyMachines);
    }
    let ghost list = profiles(file.machines@);
    let mut i: usize = 0;
    while i < file.machines.len()
        invariant
            list == profiles(file.machines@),
            file.version == CATALOG_VERSION,
            file.machines.len() <= MAX_MACHINES,
            i <= file.machines.len(),
            forall|j: int| 0 <= j < i ==> #[trigger] entry_fault(list, j) is None,
        decreases file.machines.len() - i,
    {
        let machine = &file.machines[i];
        proof {
            lemma_valid_iff_no_entry_fault(list);
            assert(list[i as int] == machine@);
            assert(list.take(i as int) =~= profiles(file.machines@.take(i as int)));
        }
        match validate_label(machine.label.as_str()) {
            Err(fault) => {
                proof {
                    assert(entry_fault(list, i as int) == Some(fault@));
                }
                return Err(fault);
            },
            Ok(()) => {},
        }
        match validate_destination(machine.target.as_str()) {
            Err(fault) => {
                proof {
                    assert(entry_fault(list, i as int) == Some(FaultModel::Destination(fault)));
                }
                return Err(Fault::Destination(fault));
            },
            Ok(()) => {},
        }
        if id_taken(&file.machines, i, machine.id) {
            proof {
                assert(entry_fault(list, i as int) == Some(FaultModel::DuplicateId(machine.id)));
            }
            return Err(Fault::DuplicateId(machine.id));
        }
        if label_taken(&file.machines, i, machine.label.as_str()) {
            let label = machine.label.clone();
            proof {
                assert(entry_fault(list, i as int) == Some(
                    FaultModel::DuplicateLabel(label@),
                ));
            }
            return Err(Fault::DuplicateLabel(label));
        }
        proof {
            assert(entry_fault(list, i as int) is None);
        }
        i += 1;
    }
    proof {
        lemma_valid_iff_no_entry_fault(list);
    }
    Ok(())
}

/// One of the first `n` machines has this identity.
fn id_taken(machines: &Vec<Machine>, n: usize, id: u128) -> (r: bool)
    requires
        n <= machines.len(),
    ensures
        r == has_id(profiles(machines@.take(n as int)), id),
{
    let ghost list = profiles(machines@.take(n as int));
    let mut k: usize = 0;
    while k < n
        invariant
            list == profiles(machines@.take(n as int)),
            k <= n <= machines.len(),
            forall|j: int| 0 <= j < k ==> (#[trigger] list[j]).id != id,
        decreases n - k,
    {
        if machines[k].id == id {
            proof {
                assert(list[k as int].id == id);
            }
            return true;
        }
        k += 1;
    }
    false
}

/// One of the first `n` machines has this label.
fn label_taken(machines: &Vec<Machine>, n: usize, label: &str) -> (r: bool)
    requires
        n <= machines.len(),
    ensures
        r == has_label(profiles(machines@.take(n as int)), label@),
{
    let ghost list = profiles(machines@.take(n as int));
    let mut k: usize = 0;
    while k < n
        invariant
            list == profiles(machines@.take(n as int)),
            k <= n <= machines.len(),
            forall|j: int| 0 <= j < k ==> (#[trigger] list[j]).label != label@,
        decreases n - k,
    {
        if same_text(machines[k].label.as_str(), label) {
            proof {
                assert(list[k as int].label == label@);
            }
            return true;
        }
        k += 1;
    }
    false
}

// ---------------------------------------------------------------------------
// Selection

/// A selector names a profile by identity where it reads as one, and otherwise by
/// exact label.
pub open spec fn selects(profile: Profile, id: Option<u128>, selector: Seq<char>) -> bool {
    match id {
        Some(id) => profile.id == id,
        None => profile.label == selector,
    }
}

/// The position of the first profile that the selector names, or the length of
/// the list where there is none.
pub open spec fn selection(list: Seq<Profile>, id: Option<u128>, selector: Seq<char>) -> int
    decreases list.len(),
{
    if list.len() == 0 || selects(list[0], id, selector) {
        0
    } else {
        1 + selection(list.skip(1), id, selector)
    }
}

/// The position of the first profile with this identity, or the length.
pub open spec fn id_position(list: Seq<Profile>, id: u128) -> int
    decreases list.len(),
{
    if list.len() == 0 || list[0].id == id {
        0
    } else {
        1 + id_position(list.skip(1), id)
    }
}

pub proof fn lemma_selection(list: Seq<Profile>, id: Option<u128>, selector: Seq<char>, i: int)
    requires
        0 <= i <= list.len(),
        forall|j: int| 0 <= j < i ==> !selects(#[trigger] list[j], id, selector),
        i < list.len() ==> selects(list[i], id, selector),
    ensures
        selection(list, id, selector) == i,
    decreases list.len(),
{
    if i > 0 {
        let rest = list.skip(1);
        assert forall|j: int| 0 <= j < i - 1 implies !selects(
            #[trigger] rest[j],
            id,
            selector,
        ) by {
            assert(rest[j] == list[j + 1]);
        }
        lemma_selection(rest, id, selector, i - 1);
    }
}

pub proof fn lemma_selection_found(list: Seq<Profile>, id: Option<u128>, selector: Seq<char>)
    ensures
        0 <= selection(list, id, selector) <= list.len(),
        selection(list, id, selector) < list.len() ==> selects(
            list[selection(list, id, selector)],
            id,
            selector,
        ),
        forall|j: int|
            0 <= j < selection(list, id, selector) ==> !selects(#[trigger] list[j], id, selector),
    decreases list.len(),
{
    if list.len() > 0 && !selects(list[0], id, selector) {
        let rest = list.skip(1);
        lemma_selection_found(rest, id, selector);
        assert forall|j: int| 0 <= j < selection(list, id, selector) implies !selects(
            #[trigger] list[j],
            id,
            selector,
        ) by {
            if j > 0 {
                assert(rest[j - 1] == list[j]);
            }
        }
    }
}

pub proof fn lemma_id_position(list: Seq<Profile>, id: u128, i: int)
    requires
        0 <= i <= list.len(),
        forall|j: int| 0 <= j < i ==> (#[trigger] list[j]).id != id,
        i < list.len() ==> list[i].id == id,
    ensures
        id_position(list, id) == i,
    decreases list.len(),
{
    if i > 0 {
        let rest = list.skip(1);
        assert forall|j: int| 0 <= j < i - 1 implies (#[trigger] rest[j]).id != id by {
            assert(rest[j] == list[j + 1]);
        }
        lemma_id_position(rest, id, i - 1);
    }
}

pub proof fn lemma_id_position_found(list: Seq<Profile>, i: int)
    requires
        0 <= i < list.len(),
    ensures
        0 <= id_position(list, list[i].id) <= i,
        list[id_position(list, list[i].id)].id == list[i].id,
    decreases list.len(),
{
    if list[0].id != list[i].id {
        let rest = list.skip(1);
        assert(rest[i - 1] == list[i]);
        lemma_id_position_found(rest, i - 1);
        let k = id_position(rest, list[i].id);
        assert(rest[k] == list[k + 1]);
    }
}

fn locate(machines: &Vec<Machine>, id: Option<u128>, selector: &str) -> (r: usize)
    ensures
        r == selection(profiles(machines@), id, selector@),
        r <= machines@.len(),
{
    let ghost list = profiles(machines@);
    let mut i: usize = 0;
    while i < machines.len()
        invariant
            list == profiles(machines@),
            i <= machines.len(),
            forall|j: int| 0 <= j < i ==> !selects(#[trigger] list[j], id, selector@),
        decreases machines.len() - i,
    {
        let named: bool = match id {
            Some(id) => machines[i].id == id,
            None => same_text(machines[i].label.as_str(), selector),
        };
        if named {
            proof {
                assert(selects(list[i as int], id, selector@));
                lemma_selection(list, id, selector@, i as int);
            }
            return i;
        }
        proof {
            assert(!selects(list[i as int], id, selector@));
        }
        i += 1;
    }
    proof {
        lemma_selection(list, id, selector@, i as int);
    }
    i
}

fn by_id(machines: &Vec<Machine>, id: u128) -> (r: usize)
    requires
        has_id(profiles(machines@), id),
    ensures
        r < machines.len(),
        r == id_position(profiles(machines@), id),
        machines@[r as int].id == id,
{
    let ghost list = profiles(machines@);
    let mut i: usize = 0;
    while machines[i].id != id
        invariant
            list == profiles(machines@),
            has_id(list, id),
            i < machines.len(),
            forall|j: int| 0 <= j < i ==> (#[trigger] list[j]).id != id,
        decreases machines.len() - i,
    {
        proof {
            assert(list[i as int].id != id);
            let k = choose|k: int| 0 <= k < list.len() && (#[trigger] list[k]).id == id;
            assert(k > i);
        }
        i += 1;
    }
    proof {
        lemma_id_position(list, id, i as int);
    }
    i
}

/// Selects by identity when the selector reads as one, otherwise by exact label.
pub fn find<'a>(machines: &'a Vec<Machine>, selector: &str) -> (r: Result<&'a Machine, Error>)
    ensures
        found(profiles(machines@), identity::parsed_id(selector@), selector@, r),
{
    let id = parse_id(selector);
    find_given(machines, id, selector)
}

/// What a search returns: the first profile named, or `NotFound`.
pub open spec fn found(
    list: Seq<Profile>,
    id: Option<u128>,
    selector: Seq<char>,
    r: Result<&Machine, Error>,
) -> bool {
    let i = selection(list, id, selector);
    match r {
        Ok(machine) => i < list.len() && machine@ == list[i],
        Err(error) => i == list.len() && error@ == ErrorModel::NotFound(selector),
    }
}

/// The search, given what the selector reads as an identity.
pub fn find_given<'a>(machines: &'a Vec<Machine>, id: Option<u128>, selector: &str) -> (r: Result<
    &'a Machine,
    Error,
>)
    ensures
        found(profiles(machines@), id, selector@, r),
{
    let i = locate(machines, id, selector);
    if i < machines.len() {
        Ok(&machines[i])
    } else {
        Err(Error::NotFound(selector.to_owned()))
    }
}

// ---------------------------------------------------------------------------
// Edits

/// Why a new profile cannot have this label in this list, if so.
pub open spec fn refusal(list: Seq<Profile>, label: Seq<char>) -> Option<ErrorModel> {
    if has_label(list, label) {
        Some(ErrorModel::LabelTaken(label))
    } else if list.len() >= MAX_MACHINES {
        Some(ErrorModel::Full)
    } else {
        None
    }
}

/// Rejects an addition early, before any slow remote validation. `add` repeats
/// the check because the catalog may change meanwhile.
pub fn check_new(machines: &Vec<Machine>, label: &str) -> (r: Result<(), Error>)
    ensures
        match r {
            Ok(()) => refusal(profiles(machines@), label@) is None,
            Err(error) => refusal(profiles(machines@), label@) == Some(error@),
        },
{
    proof {
        assert(machines@.take(machines@.len() as int) =~= machines@);
    }
    if label_taken(machines, machines.len(), label) {
        return Err(Error::LabelTaken(label.to_owned()));
    }
    if machines.len() >= MAX_MACHINES {
        return Err(Error::Full);
    }
    Ok(())
}

/// What an edit makes of a list: the list afterwards, the profile concerned and
/// whether that profile changed; or why the list stays.
pub type Edited = Result<(Seq<Profile>, Profile, bool), ErrorModel>;

pub open spec fn added(list: Seq<Profile>, id: u128, label: Seq<char>, target: Seq<char>) -> Edited {
    match refusal(list, label) {
        Some(error) => Err(error),
        None => {
            let profile = Profile { id, label, target, enabled: true };
            Ok((list.push(profile), profile, true))
        },
    }
}

/// The profile named by the selector, or the first one with its identity.
pub open spec fn named(list: Seq<Profile>, id: Option<u128>, selector: Seq<char>) -> int {
    id_position(list, list[selection(list, id, selector)].id)
}

pub open spec fn renamed(
    list: Seq<Profile>,
    id: Option<u128>,
    selector: Seq<char>,
    label: Seq<char>,
) -> Edited {
    let i = selection(list, id, selector);
    if i == list.len() {
        Err(ErrorModel::NotFound(selector))
    } else if exists|j: int|
        0 <= j < list.len() && (#[trigger] list[j]).id != list[i].id && list[j].label == label {
        Err(ErrorModel::LabelTaken(label))
    } else {
        let k = named(list, id, selector);
        let profile = Profile { label, ..list[k] };
        Ok((list.update(k, profile), profile, list[k].label != label))
    }
}

pub open spec fn switched(
    list: Seq<Profile>,
    id: Option<u128>,
    selector: Seq<char>,
    enabled: bool,
) -> Edited {
    if selection(list, id, selector) == list.len() {
        Err(ErrorModel::NotFound(selector))
    } else {
        let k = named(list, id, selector);
        let profile = Profile { enabled, ..list[k] };
        Ok((list.update(k, profile), profile, list[k].enabled != enabled))
    }
}

pub open spec fn removed(list: Seq<Profile>, id: Option<u128>, selector: Seq<char>) -> Edited {
    if selection(list, id, selector) == list.len() {
        Err(ErrorModel::NotFound(selector))
    } else {
        let k = named(list, id, selector);
        Ok((list.remove(k), list[k], true))
    }
}

/// An edit of `before` to `after` came out as `expected`.
pub open spec fn edited(
    before: Seq<Machine>,
    after: Seq<Machine>,
    machine: Result<Machine, Error>,
    expected: Edited,
) -> bool {
    match (machine, expected) {
        (Ok(machine), Ok((list, profile, _))) => profiles(after) == list && machine@ == profile,
        (Err(error), Err(model)) => after == before && error@ == model,
        _ => false,
    }
}

/// As `edited`, with word on whether the profile changed.
pub open spec fn changed(
    before: Seq<Machine>,
    after: Seq<Machine>,
    change: Result<Change, Error>,
    expected: Edited,
) -> bool {
    match (change, expected) {
        (Ok(change), Ok((list, profile, differs))) => profiles(after) == list && change.machine@
            == profile && change.changed == differs,
        (Err(error), Err(model)) => after == before && error@ == model,
        _ => false,
    }
}

/// Adds an enabled profile under a fresh identity, which chance decides. The
/// label and the target are checked first.
pub fn add(machines: &mut Vec<Machine>, label: &str, target: &str) -> (r: Result<Machine, Error>)
    ensures
        match profile_fault(label@, target@) {
            Some(fault) => final(machines)@ == old(machines)@ && (r matches Err(error) && error@
                == ErrorModel::Invalid(fault)),
            None => exists|id: u128|
                identity::marked_random(id) && edited(
                    old(machines)@,
                    final(machines)@,
                    r,
                    #[trigger] added(profiles(old(machines)@), id, label@, target@),
                ),
        },
{
    match validate_profile(label, target) {
        Err(error) => Err(error),
        Ok(()) => add_with_id(machines, fresh_id(), label, target),
    }
}

/// The addition, given the identity.
pub fn add_with_id(machines: &mut Vec<Machine>, id: u128, label: &str, target: &str) -> (r: Result<
    Machine,
    Error,
>)
    ensures
        edited(
            old(machines)@,
            final(machines)@,
            r,
            added(profiles(old(machines)@), id, label@, target@),
        ),
{
    match check_new(machines, label) {
        Err(error) => Err(error),
        Ok(()) => {
            let machine = Machine {
                id,
                label: label.to_owned(),
                target: target.to_owned(),
                enabled: true,
            };
            machines.push(machine.clone());
            proof {
                assert(profiles(machines@) =~= profiles(old(machines)@).push(machine@));
            }
            Ok(machine)
        },
    }
}

/// Gives the selected profile another label, which no other profile may have.
pub fn rename(machines: &mut Vec<Machine>, selector: &str, label: &str) -> (r: Result<Change, Error>)
    ensures
        match label_fault(label@) {
            Some(fault) => final(machines)@ == old(machines)@ && (r matches Err(error) && error@
                == ErrorModel::Invalid(fault)),
            None => changed(
                old(machines)@,
                final(machines)@,
                r,
                renamed(
                    profiles(old(machines)@),
                    identity::parsed_id(selector@),
                    selector@,
                    label@,
                ),
            ),
        },
{
    match validate_label(label) {
        Err(fault) => Err(Error::Invalid(fault)),
        Ok(()) => {
            let id = parse_id(selector);
            rename_given(machines, id, selector, label)
        },
    }
}

/// The renaming to a proper label, given what the selector reads as an identity.
pub fn rename_given(
    machines: &mut Vec<Machine>,
    id: Option<u128>,
    selector: &str,
    label: &str,
) -> (r: Result<Change, Error>)
    ensures
        changed(
            old(machines)@,
            final(machines)@,
            r,
            renamed(profiles(old(machines)@), id, selector@, label@),
        ),
{
    let ghost list = profiles(machines@);
    let i = locate(machines, id, selector);
    if i == machines.len() {
        return Err(Error::NotFound(selector.to_owned()));
    }
    let found_id: u128 = machines[i].id;
    proof {
        assert(list[i as int].id == found_id);
    }
    let mut j: usize = 0;
    while j < machines.len()
        invariant
            machines@ == old(machines)@,
            list == profiles(machines@),
            i == selection(list, id, selector@),
            i < machines.len(),
            found_id == list[i as int].id,
            j <= machines.len(),
            forall|k: int|
                0 <= k < j ==> !((#[trigger] list[k]).id != found_id && list[k].label == label@),
        decreases machines.len() - j,
    {
        if machines[j].id != found_id && same_text(machines[j].label.as_str(), label) {
            proof {
                assert(list[j as int].id != found_id && list[j as int].label == label@);
            }
            return Err(Error::LabelTaken(label.to_owned()));
        }
        proof {
            assert(!(list[j as int].id != found_id && list[j as int].label == label@));
        }
        j += 1;
    }
    let k = by_id(machines, found_id);
    let previous = machines[k].clone();
    let differs: bool = !same_text(previous.label.as_str(), label);
    let machine = Machine { label: label.to_owned(), ..previous };
    machines.set(k, machine.clone());
    proof {
        assert(previous@ == list[k as int]);
        assert(profiles(machines@) =~= list.update(k as int, machine@));
    }
    Ok(Change { machine, changed: differs })
}

/// Enables or disables the selected profile.
pub fn set_enabled(machines: &mut Vec<Machine>, selector: &str, enabled: bool) -> (r: Result<
    Change,
    Error,
>)
    ensures
        changed(
            old(machines)@,
            final(machines)@,
            r,
            switched(
                profiles(old(machines)@),
                identity::parsed_id(selector@),
                selector@,
                enabled,
            ),
        ),
{
    let id = parse_id(selector);
    set_enabled_given(machines, id, selector, enabled)
}

/// The switch, given what the selector reads as an identity.
pub fn set_enabled_given(
    machines: &mut Vec<Machine>,
    id: Option<u128>,
    selector: &str,
    enabled: bool,
) -> (r: Result<Change, Error>)
    ensures
        changed(
            old(machines)@,
            final(machines)@,
            r,
            switched(profiles(old(machines)@), id, selector@, enabled),
        ),
{
    let ghost list = profiles(machines@);
    let i = locate(machines, id, selector);
    if i == machines.len() {
        return Err(Error::NotFound(selector.to_owned()));
    }
    let found_id: u128 = machines[i].id;
    proof {
        assert(list[i as int].id == found_id);
    }
    let k = by_id(machines, found_id);
    let previous = machines[k].clone();
    let differs: bool = previous.enabled != enabled;
    let machine = Machine { enabled, ..previous };
    machines.set(k, machine.clone());
    proof {
        assert(previous@ == list[k as int]);
        assert(profiles(machines@) =~= list.update(k as int, machine@));
    }
    Ok(Change { machine, changed: differs })
}

/// Forgets the profile only. The remote daemon and its panes are untouched.
pub fn remove(machines: &mut Vec<Machine>, selector: &str) -> (r: Result<Machine, Error>)
    ensures
        edited(
            old(machines)@,
            final(machines)@,
            r,
            removed(profiles(old(machines)@), identity::parsed_id(selector@), selector@),
        ),
{
    let id = parse_id(selector);
    remove_given(machines, id, selector)
}

/// The removal, given what the selector reads as an identity.
pub fn remove_given(machines: &mut Vec<Machine>, id: Option<u128>, selector: &str) -> (r: Result<
    Machine,
    Error,
>)
    ensures
        edited(
            old(machines)@,
            final(machines)@,
            r,
            removed(profiles(old(machines)@), id, selector@),
        ),
{
    let ghost list = profiles(machines@);
    let i = locate(machines, id, selector);
    if i == machines.len() {
        return Err(Error::NotFound(selector.to_owned()));
    }
    let found_id: u128 = machines[i].id;
    proof {
        assert(list[i as int].id == found_id);
    }
    let k = by_id(machines, found_id);
    let machine = machines.remove(k);
    proof {
        assert(machine@ == list[k as int]);
        assert(profiles(machines@) =~= list.remove(k as int));
    }
    Ok(machine)
}

fn same_machine(a: &Machine, b: &Machine) -> (r: bool)
    ensures
        r == (a@ == b@),
{
    a.id == b.id && a.enabled == b.enabled && same_text(a.label.as_str(), b.label.as_str())
        && same_text(a.target.as_str(), b.target.as_str())
}

pub fn same_machines(a: &Vec<Machine>, b: &Vec<Machine>) -> (r: bool)
    ensures
        r == (profiles(a@) == profiles(b@)),
{
    if a.len() != b.len() {
        proof {
            assert(profiles(a@).len() != profiles(b@).len());
        }
        return false;
    }
    let mut i: usize = 0;
    while i < a.len()
        invariant
            a.len() == b.len(),
            i <= a.len(),
            forall|k: int| 0 <= k < i ==> profiles(a@)[k] == profiles(b@)[k],
        decreases a.len() - i,
    {
        if !same_machine(&a[i], &b[i]) {
            proof {
                assert(profiles(a@)[i as int] != profiles(b@)[i as int]);
            }
            return false;
        }
        i += 1;
    }
    proof {
        assert(profiles(a@) =~= profiles(b@));
    }
    true
}

/// A catalog that can be used: none yet, or a valid one of the known version.
pub open spec fn usable(file: Option<CatalogFile>) -> bool {
    file matches Some(file) ==> file.version == CATALOG_VERSION && valid_catalog(
        profiles(file.machines@),
    )
}

/// `fault` is why a catalog cannot be used: by its version, by its size, then by
/// its first faulty profile.
pub open spec fn rejected_for(file: CatalogFile, fault: FaultModel) -> bool {
    if file.version != CATALOG_VERSION {
        fault == FaultModel::Version(file.version)
    } else if file.machines@.len() > MAX_MACHINES {
        fault == FaultModel::TooManyMachines
    } else {
        first_entry_fault(profiles(file.machines@), fault)
    }
}

/// `r` is what a stored catalog lists.
pub open spec fn lists(file: Option<CatalogFile>, r: Result<Vec<Machine>, Fault>) -> bool {
    &&& r is Ok <==> usable(file)
    &&& match r {
        Ok(machines) => machines@ == (match file {
            Some(file) => file.machines@,
            None => Seq::<Machine>::empty(),
        }),
        Err(fault) => file matches Some(file) && rejected_for(file, fault@),
    }
}

/// The profiles of a catalog as it was read; none where there is no catalog yet.
/// An invalid catalog is rejected whole.
pub fn list(file: Option<CatalogFile>) -> (r: Result<Vec<Machine>, Fault>)
    ensures
        lists(file, r),
{
    match file {
        None => Ok(Vec::new()),
        Some(file) => match validate_catalog(&file) {
            Ok(()) => Ok(file.machines),
            Err(fault) => Err(fault),
        },
    }
}

/// `r` is what an edit from `before` to `after` asks to be written: nothing where
/// no profile changed, and otherwise the whole catalog, which must be valid.
pub open spec fn writes(
    before: Seq<Machine>,
    after: Vec<Machine>,
    r: Result<Option<CatalogFile>, Fault>,
) -> bool {
    let file = CatalogFile { version: CATALOG_VERSION, machines: after };
    if profiles(after@) == profiles(before) {
        r matches Ok(None)
    } else if valid_catalog(profiles(after@)) {
        r == Ok::<Option<CatalogFile>, Fault>(Some(file))
    } else {
        r matches Err(fault) && rejected_for(file, fault@)
    }
}

pub fn file_to_write(before: &Vec<Machine>, after: Vec<Machine>) -> (r: Result<
    Option<CatalogFile>,
    Fault,
>)
    ensures
        writes(before@, after, r),
{
    if same_machines(before, &after) {
        return Ok(None);
    }
    let file = CatalogFile { version: CATALOG_VERSION, machines: after };
    match validate_catalog(&file) {
        Ok(()) => Ok(Some(file)),
        Err(fault) => Err(fault),
    }
}

/// What came of an edit: its result, and what is to be written, if anything.
#[derive(Debug)]
pub struct Commit<T> {
    pub result: T,
    pub file: Option<CatalogFile>,
}

/// Why an edit writes nothing.
#[derive(Debug)]
pub enum EditError {
    /// The stored catalog cannot be used.
    Stored(Fault),
    /// The operation refused.
    Refused(Error),
    /// The operation left no valid catalog.
    Invalid(Fault),
}

/// `r` follows from an operation on `before` that gave `outcome` and left
/// `after`.
pub open spec fn concludes<T>(
    before: Seq<Machine>,
    outcome: Result<T, Error>,
    after: Vec<Machine>,
    r: Result<Commit<T>, EditError>,
) -> bool {
    match outcome {
        Err(error) => r == Err::<Commit<T>, EditError>(EditError::Refused(error)),
        Ok(result) => match r {
            Ok(commit) => commit.result == result && writes(
                before,
                after,
                Ok::<Option<CatalogFile>, Fault>(commit.file),
            ),
            Err(EditError::Invalid(fault)) => writes(
                before,
                after,
                Err::<Option<CatalogFile>, Fault>(fault),
            ),
            Err(_) => false,
        },
    }
}

/// Edits a stored catalog as a whole: the operation runs once, on a copy of what
/// is listed, and gives its result and the list that it leaves. It does not run
/// where the stored catalog cannot be used. Nothing is to be written where it
/// refuses, where it leaves the list as it was, or where it leaves no valid
/// catalog.
pub fn mutate_locked<T, F: FnOnce(Vec<Machine>) -> (Result<T, Error>, Vec<Machine>)>(
    stored: Option<CatalogFile>,
    operation: F,
) -> (r: Result<Commit<T>, EditError>)
    requires
        forall|machines: Vec<Machine>| #[trigger] call_requires(operation, (machines,)),
    ensures
        usable(stored) <==> !(r matches Err(EditError::Stored(_))),
        match r {
            Err(EditError::Stored(fault)) => lists(stored, Err::<Vec<Machine>, Fault>(fault)),
            _ => exists|
                before: Vec<Machine>,
                copy: Vec<Machine>,
                outcome: Result<T, Error>,
                after: Vec<Machine>,
            |
                {
                    &&& #[trigger] lists(stored, Ok::<Vec<Machine>, Fault>(before))
                    &&& copy@ == before@
                    &&& #[trigger] call_ensures(operation, (copy,), (outcome, after))
                    &&& concludes(before@, outcome, after, r)
                },
        },
{
    let before = match list(stored) {
        Ok(before) => before,
        Err(fault) => {
            return Err(EditError::Stored(fault));
        },
    };
    let copy = before.clone();
    proof {
        assert(copy@ =~= before@);
    }
    let ghost copied = copy;
    let (outcome, after) = operation(copy);
    let ghost given = (outcome, after);
    proof {
        assert(call_ensures(operation, (copied,), (given.0, given.1)));
    }
    match outcome {
        Err(error) => Err(EditError::Refused(error)),
        Ok(result) => match file_to_write(&before, after) {
            Ok(file) => Ok(Commit { result, file }),
            Err(fault) => Err(EditError::Invalid(fault)),
        },
    }
}

} // verus!
