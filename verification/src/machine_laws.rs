//! What holds of saved machine profiles across several edits.

use vstd::prelude::*;

use crate::identity;
use crate::machines::{
    self, CatalogFile, Change, Commit, EditError, Error, ErrorModel, Fault, FaultModel, Machine,
    Profile, MAX_CATALOG_BYTES,
};
use crate::ssh_bridge;
use crate::state_file::{self, Disk, Granted, ParentStep, WriteStep};
use crate::text;

verus! {

/// In a valid catalog a label names its own profile.
pub proof fn law_a_label_names_its_profile(list: Seq<Profile>, i: int)
    requires
        machines::valid_catalog(list),
        0 <= i < list.len(),
    ensures
        machines::selection(list, identity::parsed_id(list[i].label), list[i].label) == i,
        machines::named(list, identity::parsed_id(list[i].label), list[i].label) == i,
{
    let label = list[i].label;
    assert(machines::label_fault(label) is None);
    assert(identity::parsed_id(label) is None);
    machines::lemma_selection(list, identity::parsed_id(label), label, i);
    machines::lemma_id_position(list, list[i].id, i);
}

/// In a valid catalog a text that reads as a profile's identity, such as the
/// identity in print, names that profile, whatever the labels are.
pub proof fn law_an_identity_names_its_profile(list: Seq<Profile>, i: int, selector: Seq<char>)
    requires
        machines::valid_catalog(list),
        0 <= i < list.len(),
        identity::parsed_id(selector) == Some(list[i].id),
    ensures
        machines::selection(list, identity::parsed_id(selector), selector) == i,
        machines::named(list, identity::parsed_id(selector), selector) == i,
{
    let id = identity::parsed_id(selector);
    assert forall|j: int| 0 <= j < i implies !machines::selects(
        #[trigger] list[j],
        id,
        selector,
    ) by {
        assert(machines::label_fault(list[j].label) is None);
    }
    machines::lemma_selection(list, id, selector, i);
    machines::lemma_id_position(list, list[i].id, i);
}

/// In a valid catalog the profile that an edit concerns is the one selected.
pub proof fn law_named_is_selected(list: Seq<Profile>, id: Option<u128>, selector: Seq<char>)
    requires
        machines::valid_catalog(list),
        machines::selection(list, id, selector) < list.len(),
    ensures
        machines::named(list, id, selector) == machines::selection(list, id, selector),
{
    machines::lemma_selection_found(list, id, selector);
    let i = machines::selection(list, id, selector);
    machines::lemma_id_position(list, list[i].id, i);
}

/// Every successful edit of a valid catalog leaves a valid catalog: an addition
/// of a proper profile under an identity that no profile has, a renaming to a
/// proper label, a switch and a removal.
pub proof fn law_edits_keep_the_catalog_valid(
    list: Seq<Profile>,
    id: u128,
    target: Seq<char>,
    selected: Option<u128>,
    selector: Seq<char>,
    label: Seq<char>,
    enabled: bool,
)
    requires
        machines::valid_catalog(list),
    ensures
        machines::profile_fault(label, target) is None && !machines::has_id(list, id) ==> (
        machines::added(list, id, label, target) matches Ok((after, _, _))
            ==> machines::valid_catalog(after)),
        machines::label_fault(label) is None ==> (machines::renamed(
            list,
            selected,
            selector,
            label,
        ) matches Ok((after, _, _)) ==> machines::valid_catalog(after)),
        machines::switched(list, selected, selector, enabled) matches Ok((after, _, _))
            ==> machines::valid_catalog(after),
        machines::removed(list, selected, selector) matches Ok((after, _, _))
            ==> machines::valid_catalog(after),
{
    machines::lemma_selection_found(list, selected, selector);
    if machines::selection(list, selected, selector) < list.len() {
        law_named_is_selected(list, selected, selector);
        let k = machines::named(list, selected, selector);
        let rest = list.remove(k);
        assert forall|i: int| 0 <= i < rest.len() implies #[trigger] rest[i] == list[if i < k {
            i
        } else {
            i + 1
        }] by {}
        assert(machines::valid_catalog(rest));
        assert(machines::valid_catalog(list.update(k, Profile { enabled, ..list[k] })));
        if machines::label_fault(label) is None && machines::renamed(
            list,
            selected,
            selector,
            label,
        ) is Ok {
            let after = list.update(k, Profile { label, ..list[k] });
            assert forall|i: int, j: int| 0 <= i < j < after.len() implies (#[trigger] after[i]).id
                != (#[trigger] after[j]).id && after[i].label != after[j].label by {
                if i == k {
                    assert(list[j].id != list[k].id);
                } else if j == k {
                    assert(list[i].id != list[k].id);
                }
            }
            assert(machines::valid_catalog(after));
        }
    }
    if machines::profile_fault(label, target) is None && !machines::has_id(list, id)
        && machines::added(list, id, label, target) is Ok {
        let after = list.push(Profile { id, label, target, enabled: true });
        assert(machines::valid_catalog(after));
    }
}

/// Renaming and switching keep every identity and every target, and the order
/// of the profiles.
pub proof fn law_identities_are_stable(
    list: Seq<Profile>,
    id: Option<u128>,
    selector: Seq<char>,
    label: Seq<char>,
    enabled: bool,
)
    ensures
        machines::renamed(list, id, selector, label) matches Ok((after, _, _)) ==> after.len()
            == list.len() && forall|i: int|
            0 <= i < list.len() ==> (#[trigger] after[i]).id == list[i].id && after[i].target
                == list[i].target && after[i].enabled == list[i].enabled,
        machines::switched(list, id, selector, enabled) matches Ok((after, _, _)) ==> after.len()
            == list.len() && forall|i: int|
            0 <= i < list.len() ==> (#[trigger] after[i]).id == list[i].id && after[i].target
                == list[i].target && after[i].label == list[i].label,
{
    machines::lemma_selection_found(list, id, selector);
    let i = machines::selection(list, id, selector);
    if i < list.len() {
        machines::lemma_id_position_found(list, i);
    }
}

/// After a renaming in a valid catalog the new label names the same profile,
/// and renaming to that label again changes nothing.
pub proof fn law_a_renamed_profile_is_found_by_its_new_label(
    list: Seq<Profile>,
    id: Option<u128>,
    selector: Seq<char>,
    label: Seq<char>,
)
    requires
        machines::valid_catalog(list),
        machines::label_fault(label) is None,
        machines::renamed(list, id, selector, label) is Ok,
    ensures
        ({
            let (after, profile, _) = machines::renamed(list, id, selector, label)->Ok_0;
            let i = machines::selection(list, id, selector);
            &&& profile.id == list[i].id
            &&& machines::selection(after, identity::parsed_id(label), label) == i
            &&& after[i] == profile
            &&& machines::renamed(after, identity::parsed_id(label), label, label) == Ok::<
                (Seq<Profile>, Profile, bool),
                ErrorModel,
            >((after, profile, false))
        }),
{
    let (after, profile, _) = machines::renamed(list, id, selector, label)->Ok_0;
    let i = machines::selection(list, id, selector);
    machines::lemma_selection_found(list, id, selector);
    law_named_is_selected(list, id, selector);
    law_edits_keep_the_catalog_valid(list, 0, label, id, selector, label, true);
    law_a_label_names_its_profile(after, i);
    let again = machines::renamed(after, identity::parsed_id(label), label, label);
    assert forall|j: int| 0 <= j < after.len() implies !((#[trigger] after[j]).id != after[i].id
        && after[j].label == label) by {
        if after[j].label == label {
            if j < i {
                assert(after[j].label != after[i].label);
            } else if i < j {
                assert(after[i].label != after[j].label);
            }
        }
    }
    assert(after.update(i, profile) =~= after);
}

/// In a valid catalog, removing a profile that was just added, by its label or
/// by a text that reads as its identity, restores the list.
pub proof fn law_removal_undoes_an_addition(
    list: Seq<Profile>,
    id: u128,
    label: Seq<char>,
    target: Seq<char>,
    selector: Seq<char>,
)
    requires
        machines::valid_catalog(list),
        machines::profile_fault(label, target) is None,
        !machines::has_id(list, id),
        machines::added(list, id, label, target) is Ok,
        selector == label || identity::parsed_id(selector) == Some(id),
    ensures
        ({
            let (after, profile, _) = machines::added(list, id, label, target)->Ok_0;
            machines::removed(after, identity::parsed_id(selector), selector) == Ok::<
                (Seq<Profile>, Profile, bool),
                ErrorModel,
            >((list, profile, true))
        }),
{
    let (after, profile, _) = machines::added(list, id, label, target)->Ok_0;
    law_edits_keep_the_catalog_valid(list, id, target, None, label, label, true);
    let last = list.len() as int;
    assert(after[last] == profile);
    if selector == label {
        law_a_label_names_its_profile(after, last);
    } else {
        law_an_identity_names_its_profile(after, last, selector);
    }
    assert(after.remove(last) =~= list);
}

/// In a valid catalog a removed profile is found no more, by its label or by
/// a text that reads as its identity.
pub proof fn law_a_removed_profile_is_gone(
    list: Seq<Profile>,
    id: Option<u128>,
    selector: Seq<char>,
    again: Seq<char>,
)
    requires
        machines::valid_catalog(list),
        machines::selection(list, id, selector) < list.len(),
        again == list[machines::selection(list, id, selector)].label || identity::parsed_id(again)
            == Some(list[machines::selection(list, id, selector)].id),
    ensures
        ({
            let after = machines::removed(list, id, selector)->Ok_0.0;
            machines::removed(after, identity::parsed_id(again), again) == Err::<
                (Seq<Profile>, Profile, bool),
                ErrorModel,
            >(ErrorModel::NotFound(again))
        }),
{
    let k = machines::selection(list, id, selector);
    machines::lemma_selection_found(list, id, selector);
    law_named_is_selected(list, id, selector);
    let after = list.remove(k);
    let read = identity::parsed_id(again);
    assert(machines::label_fault(list[k].label) is None);
    assert forall|j: int| 0 <= j < after.len() implies !machines::selects(
        #[trigger] after[j],
        read,
        again,
    ) by {
        let at = if j < k {
            j
        } else {
            j + 1
        };
        assert(after[j] == list[at]);
        assert(machines::label_fault(list[at].label) is None);
        if at < k {
            assert(list[at].id != list[k].id);
        } else {
            assert(list[k].id != list[at].id);
        }
    }
    machines::lemma_selection(after, read, again, after.len() as int);
}

/// Switching a profile to the state that it has changes nothing, in a valid
/// catalog.
pub proof fn law_switching_twice_changes_once(
    list: Seq<Profile>,
    id: Option<u128>,
    selector: Seq<char>,
    enabled: bool,
)
    requires
        machines::valid_catalog(list),
        machines::switched(list, id, selector, enabled) is Ok,
    ensures
        ({
            let (after, profile, _) = machines::switched(list, id, selector, enabled)->Ok_0;
            machines::switched(after, id, selector, enabled) == Ok::<
                (Seq<Profile>, Profile, bool),
                ErrorModel,
            >((after, profile, false))
        }),
{
    let k = machines::selection(list, id, selector);
    machines::lemma_selection_found(list, id, selector);
    law_named_is_selected(list, id, selector);
    let after = list.update(k, Profile { enabled, ..list[k] });
    assert forall|j: int| 0 <= j < k implies !machines::selects(
        #[trigger] after[j],
        id,
        selector,
    ) by {
        assert(after[j] == list[j]);
    }
    machines::lemma_selection(after, id, selector, k);
    machines::lemma_id_position(after, after[k].id, k);
    assert(after.update(k, after[k]) =~= after);
}

/// What is stored once an edit has asked for this.
pub open spec fn stored_after(
    stored: Option<CatalogFile>,
    written: Result<Option<CatalogFile>, Fault>,
) -> Option<CatalogFile> {
    match written {
        Ok(Some(file)) => Some(file),
        _ => stored,
    }
}

/// An edit of a catalog as a whole. Nothing is written exactly when the list is
/// left as it was, and the edit is refused exactly when it leaves another list
/// that is no valid catalog; either way what is stored stays. Otherwise what is
/// listed next is exactly the list that the edit left.
pub proof fn law_what_is_written_is_listed_next(
    stored: Option<CatalogFile>,
    before: Vec<Machine>,
    after: Vec<Machine>,
    written: Result<Option<CatalogFile>, Fault>,
    next: Result<Vec<Machine>, Fault>,
)
    requires
        machines::lists(stored, Ok::<Vec<Machine>, Fault>(before)),
        machines::writes(before@, after, written),
        machines::lists(stored_after(stored, written), next),
    ensures
        written matches Ok(None) <==> machines::profiles(after@) == machines::profiles(before@),
        written is Err <==> machines::profiles(after@) != machines::profiles(before@)
            && !machines::valid_catalog(machines::profiles(after@)),
        next matches Ok(list) && match written {
            Ok(Some(_)) => list@ == after@,
            _ => list@ == before@,
        },
        written is Ok ==> (next matches Ok(list) && machines::profiles(list@)
            == machines::profiles(after@)),
{
}

/// The disk once an edit has been carried out, and whether it succeeded: `text`
/// is how the file that is asked for is written down, and `parent_failing` and
/// `failing` are the steps of the write that fail, if any.
pub open spec fn saved<T>(
    disk: Disk,
    edit: Result<Commit<T>, EditError>,
    text: Seq<char>,
    granted: Granted,
    parent_failing: Option<ParentStep>,
    failing: Option<WriteStep>,
) -> (Disk, bool) {
    match edit {
        Ok(commit) => if commit.file is Some {
            state_file::written(
                disk,
                text,
                MAX_CATALOG_BYTES,
                true,
                granted,
                parent_failing,
                failing,
            )
        } else {
            (disk, true)
        },
        Err(_) => (disk, false),
    }
}

/// An edit of a catalog, down to the disk. Nothing is touched where the operation
/// refuses, where it leaves the list as it was, where it leaves no valid catalog,
/// or where the catalog is too long as a text. Where another list is saved, the
/// file reads as its text and as no other, and the text is that of a catalog which
/// lists exactly what the operation left. Where the write fails, what stood there
/// stays, but for the whole new file where only the directory could not be synced.
pub proof fn law_an_edit_is_saved_whole_or_not_at_all<T>(
    before: Vec<Machine>,
    outcome: Result<T, Error>,
    after: Vec<Machine>,
    edit: Result<Commit<T>, EditError>,
    next: Result<Vec<Machine>, Fault>,
    text: Seq<char>,
    disk: Disk,
    granted: Granted,
    parent_failing: Option<ParentStep>,
    failing: Option<WriteStep>,
)
    requires
        machines::concludes(before@, outcome, after, edit),
        edit matches Ok(commit) ==> commit.file is Some ==> machines::lists(commit.file, next),
    ensures
        ({
            let (left, succeeded) = saved(disk, edit, text, granted, parent_failing, failing);
            let bytes = vstd::utf8::encode_utf8(text);
            let unchanged = machines::profiles(after@) == machines::profiles(before@);
            let valid = machines::valid_catalog(machines::profiles(after@));
            &&& outcome is Err ==> edit is Err && left == disk && !succeeded
            &&& outcome is Ok && unchanged ==> left == disk && succeeded
            &&& outcome is Ok && !unchanged && !valid ==> left == disk && !succeeded
            &&& outcome is Ok && !unchanged && bytes.len() > MAX_CATALOG_BYTES ==> left == disk
                && !succeeded
            &&& outcome is Ok && !unchanged && succeeded ==> {
                &&& state_file::reads_as(left.target, MAX_CATALOG_BYTES, text)
                &&& forall|read: Seq<char>| #[trigger]
                    state_file::reads_as(left.target, MAX_CATALOG_BYTES, read) ==> read == text
                &&& next matches Ok(list) && list@ == after@
            }
            &&& !succeeded ==> left.target == disk.target || (failing == Some(
                WriteStep::SyncDirectory,
            ) && left.target == state_file::private_file(bytes))
            &&& disk.temporary is None ==> left.temporary is None
            &&& left.elsewhere == disk.elsewhere
        }),
{
    state_file::law_a_write_is_read_back_or_changes_nothing(
        disk,
        text,
        MAX_CATALOG_BYTES,
        true,
        granted,
        parent_failing,
        failing,
    );
}

// ---------------------------------------------------------------------------
// What labels and catalogs must satisfy

/// A label takes 1 to 64 bytes, does not begin with a dash, holds neither white
/// space nor controls, and does not read as an identity. Of several rules that a
/// label breaks the first in this order is named.
pub proof fn law_a_label_is_short_plain_and_no_identity(label: Seq<char>, id: Option<u128>)
    ensures
        machines::label_fault(label) == machines::label_fault_given(
            label,
            identity::parsed_id(label),
        ),
        ({
            let fault = machines::label_fault_given(label, id);
            let bytes = vstd::utf8::encode_utf8(label).len();
            let sized = 1 <= bytes <= 64;
            let dashed = label.len() > 0 && label[0] == '-';
            let clean = forall|i: int|
                0 <= i < label.len() ==> !text::white_space(#[trigger] label[i]) && !text::control(
                    label[i],
                );
            &&& fault is None <==> sized && !dashed && clean && id is None
            &&& fault == Some(FaultModel::LabelLength) <==> !sized
            &&& fault == Some(FaultModel::LabelDash) <==> sized && dashed
            &&& fault == Some(FaultModel::LabelCharacters) <==> sized && !dashed && !clean
            &&& fault == Some(FaultModel::LabelUuid) <==> sized && !dashed && clean && id is Some
        }),
{
    if forall|i: int|
        0 <= i < label.len() ==> !text::white_space(#[trigger] label[i]) && !text::control(
            label[i],
        ) {
        assert forall|i: int| 0 <= i < label.len() implies !machines::blank_or_control(
            #[trigger] label[i],
        ) by {}
    } else {
        let i = choose|i: int|
            0 <= i < label.len() && (text::white_space(#[trigger] label[i]) || text::control(
                label[i],
            ));
        assert(machines::blank_or_control(label[i]));
    }
}

/// A profile is refused for its label first, and then for its target.
pub proof fn law_a_profile_needs_a_label_and_a_target(label: Seq<char>, target: Seq<char>)
    ensures
        machines::profile_fault(label, target) is None <==> machines::label_fault(label) is None
            && ssh_bridge::destination_fault(target) is None,
        machines::label_fault(label) is Some ==> machines::profile_fault(label, target)
            == machines::label_fault(label),
        machines::label_fault(label) is None ==> (ssh_bridge::destination_fault(
            target,
        ) matches Some(fault) ==> machines::profile_fault(label, target) == Some(
            FaultModel::Destination(fault),
        )),
{
}

pub open spec fn same_fields(a: Machine, b: Machine) -> bool {
    a.id == b.id && a.label@ == b.label@ && a.target@ == b.target@ && a.enabled == b.enabled
}

/// Lists are taken for the same exactly when they agree in every field of every
/// profile.
pub proof fn law_the_same_profiles_agree_in_every_field(a: Seq<Machine>, b: Seq<Machine>)
    ensures
        machines::profiles(a) == machines::profiles(b) <==> a.len() == b.len() && forall|i: int|
            0 <= i < a.len() ==> same_fields(#[trigger] a[i], b[i]),
{
    let x = machines::profiles(a);
    let y = machines::profiles(b);
    assert(x.len() == a.len() && y.len() == b.len());
    if x == y {
        assert forall|i: int| 0 <= i < a.len() implies same_fields(#[trigger] a[i], b[i]) by {
            assert(x[i] == a[i]@);
            assert(y[i] == b[i]@);
        }
    }
    if a.len() == b.len() && forall|i: int| 0 <= i < a.len() ==> same_fields(#[trigger] a[i], b[i]) {
        assert forall|i: int| 0 <= i < x.len() implies x[i] == y[i] by {
            assert(same_fields(a[i], b[i]));
            assert(x[i] == a[i]@);
            assert(y[i] == b[i]@);
        }
        assert(x =~= y);
    }
}

/// A stored catalog can be used exactly when there is none, or when it has version
/// 1 and at most 256 profiles, each with a proper label and target, and no two
/// with the same identity or the same label. It then lists its profiles as they
/// are.
pub proof fn law_only_a_proper_catalog_is_used(
    file: Option<CatalogFile>,
    r: Result<Vec<Machine>, Fault>,
)
    requires
        machines::lists(file, r),
    ensures
        file is None ==> (r matches Ok(list) && list@.len() == 0),
        file matches Some(file) ==> {
            let list = file.machines@;
            &&& r is Ok <==> {
                &&& file.version == 1
                &&& list.len() <= 256
                &&& forall|i: int|
                    0 <= i < list.len() ==> machines::label_fault(
                        (#[trigger] list[i]).label@,
                    ) is None && ssh_bridge::destination_fault(list[i].target@) is None
                &&& forall|i: int, j: int|
                    0 <= i < j < list.len() ==> (#[trigger] list[i]).id != (#[trigger] list[j]).id
                        && list[i].label@ != list[j].label@
            }
            &&& r matches Ok(listed) ==> listed@ == list
        },
{
    if file is Some {
        let list = (file->0).machines@;
        let all = machines::profiles(list);
        assert forall|i: int| 0 <= i < list.len() implies #[trigger] all[i] == list[i]@ by {}
        if machines::valid_catalog(all) {
            assert forall|i: int| 0 <= i < list.len() implies machines::label_fault(
                (#[trigger] list[i]).label@,
            ) is None && ssh_bridge::destination_fault(list[i].target@) is None by {
                assert(machines::label_fault(all[i].label) is None);
                assert(machines::target_fault(all[i].target) is None);
            }
            assert forall|i: int, j: int| 0 <= i < j < list.len() implies (#[trigger] list[i]).id
                != (#[trigger] list[j]).id && list[i].label@ != list[j].label@ by {
                assert(all[i].id != all[j].id);
            }
        }
        if list.len() <= 256 && (forall|i: int|
            0 <= i < list.len() ==> machines::label_fault((#[trigger] list[i]).label@) is None
                && ssh_bridge::destination_fault(list[i].target@) is None) && (forall|
            i: int,
            j: int,
        |
            0 <= i < j < list.len() ==> (#[trigger] list[i]).id != (#[trigger] list[j]).id
                && list[i].label@ != list[j].label@) {
            assert forall|i: int| 0 <= i < all.len() implies machines::label_fault(
                (#[trigger] all[i]).label,
            ) is None && machines::target_fault(all[i].target) is None by {
                assert(machines::label_fault(list[i].label@) is None);
            }
            assert forall|i: int, j: int| 0 <= i < j < all.len() implies (#[trigger] all[i]).id != (
            #[trigger] all[j]).id && all[i].label != all[j].label by {
                assert(list[i].id != list[j].id);
            }
            assert(machines::valid_catalog(all));
        }
    }
}

/// Profile `i` is what the catalog is rejected for: what stands before it would be
/// used, and it is improper itself or repeats an identity or a label.
pub open spec fn rejected_at(list: Seq<Profile>, i: int, fault: FaultModel) -> bool {
    &&& 0 <= i < list.len()
    &&& machines::valid_catalog(list.take(i))
    &&& match machines::profile_fault(list[i].label, list[i].target) {
        Some(found) => fault == found,
        None => if machines::has_id(list.take(i), list[i].id) {
            fault == FaultModel::DuplicateId(list[i].id)
        } else {
            fault == FaultModel::DuplicateLabel(list[i].label) && machines::has_label(
                list.take(i),
                list[i].label,
            )
        },
    }
}

/// A catalog is rejected for its version first, then for its size, and then for
/// the first profile that is improper or repeats an earlier one.
pub proof fn law_a_catalog_is_rejected_for_its_first_fault(file: CatalogFile, fault: FaultModel)
    requires
        machines::rejected_for(file, fault),
    ensures
        file.version != 1 ==> fault == FaultModel::Version(file.version),
        file.version == 1 && file.machines@.len() > 256 ==> fault == FaultModel::TooManyMachines,
        file.version == 1 && file.machines@.len() <= 256 ==> exists|i: int| #[trigger]
            rejected_at(machines::profiles(file.machines@), i, fault),
{
    if file.version == 1 && file.machines@.len() <= 256 {
        let list = machines::profiles(file.machines@);
        let i = choose|i: int|
            0 <= i < list.len() && #[trigger] machines::entry_fault(list, i) == Some(fault)
                && forall|j: int| 0 <= j < i ==> #[trigger] machines::entry_fault(list, j) is None;
        let before = list.take(i);
        assert forall|j: int| 0 <= j < before.len() implies #[trigger] machines::entry_fault(
            before,
            j,
        ) is None by {
            assert(machines::entry_fault(list, j) is None);
            assert(before[j] == list[j]);
            assert(before.take(j) =~= list.take(j));
        }
        machines::lemma_valid_iff_no_entry_fault(before);
        assert(rejected_at(list, i, fault));
    }
}

// ---------------------------------------------------------------------------
// What each edit does

/// The profile is the one meant: by identity where the selector reads as one, and
/// otherwise by its exact label.
pub open spec fn meant(machine: Machine, id: Option<u128>, selector: Seq<char>) -> bool {
    match id {
        Some(id) => machine.id == id,
        None => machine.label@ == selector,
    }
}

/// `i` is the first profile that is meant.
pub open spec fn first_meant(
    list: Seq<Machine>,
    id: Option<u128>,
    selector: Seq<char>,
    i: int,
) -> bool {
    &&& 0 <= i < list.len()
    &&& meant(list[i], id, selector)
    &&& forall|j: int| 0 <= j < i ==> !meant(#[trigger] list[j], id, selector)
}

/// No profile is meant.
pub open spec fn none_meant(list: Seq<Machine>, id: Option<u128>, selector: Seq<char>) -> bool {
    forall|j: int| 0 <= j < list.len() ==> !meant(#[trigger] list[j], id, selector)
}

/// All profiles but `k` agree.
pub open spec fn agree_but_for(before: Seq<Machine>, after: Seq<Machine>, k: int) -> bool {
    &&& after.len() == before.len()
    &&& forall|j: int|
        0 <= j < before.len() && j != k ==> (#[trigger] after[j]).id == before[j].id
            && after[j].label@ == before[j].label@ && after[j].target@ == before[j].target@
            && after[j].enabled == before[j].enabled
}

proof fn lemma_selection_is_first_meant(
    list: Seq<Machine>,
    id: Option<u128>,
    selector: Seq<char>,
)
    ensures
        ({
            let i = machines::selection(machines::profiles(list), id, selector);
            if i == list.len() {
                none_meant(list, id, selector)
            } else {
                first_meant(list, id, selector, i)
            }
        }),
        forall|i: int, j: int|
            #![trigger first_meant(list, id, selector, i), first_meant(list, id, selector, j)]
            first_meant(list, id, selector, i) && first_meant(list, id, selector, j) ==> i == j,
        forall|i: int| #[trigger]
            first_meant(list, id, selector, i) ==> machines::selection(
                machines::profiles(list),
                id,
                selector,
            ) == i,
{
    let all = machines::profiles(list);
    machines::lemma_selection_found(all, id, selector);
    let i = machines::selection(all, id, selector);
    assert forall|j: int| 0 <= j < list.len() implies machines::selects(
        #[trigger] all[j],
        id,
        selector,
    ) == meant(list[j], id, selector) by {}
    assert forall|j: int| 0 <= j < i implies !meant(#[trigger] list[j], id, selector) by {
        assert(!machines::selects(all[j], id, selector));
    }
    if i < list.len() {
        assert(machines::selects(all[i], id, selector));
        assert(first_meant(list, id, selector, i));
    }
}

/// A search finds the first profile that is meant, and none only where there is
/// none.
pub proof fn law_a_search_finds_what_is_meant(
    list: Seq<Machine>,
    id: Option<u128>,
    selector: Seq<char>,
    r: Result<&Machine, Error>,
)
    requires
        machines::found(machines::profiles(list), id, selector, r),
    ensures
        match r {
            Ok(machine) => exists|i: int| #[trigger]
                first_meant(list, id, selector, i) && machine.id == list[i].id && machine.label@
                    == list[i].label@ && machine.target@ == list[i].target@ && machine.enabled
                    == list[i].enabled,
            Err(error) => none_meant(list, id, selector) && (
            error matches Error::NotFound(quoted) && quoted@ == selector),
        },
{
    lemma_selection_is_first_meant(list, id, selector);
    let i = machines::selection(machines::profiles(list), id, selector);
    if i < list.len() {
        assert(first_meant(list, id, selector, i));
    }
}

/// An addition succeeds exactly when no profile has the label and fewer than 256
/// are saved; a label that is taken is named first. The new profile is enabled,
/// has exactly the given identity, label and target, and comes last; the others
/// stay as they are.
pub proof fn law_an_addition_saves_an_enabled_profile_last(
    before: Seq<Machine>,
    after: Seq<Machine>,
    r: Result<Machine, Error>,
    id: u128,
    label: Seq<char>,
    target: Seq<char>,
)
    requires
        machines::edited(
            before,
            after,
            r,
            machines::added(machines::profiles(before), id, label, target),
        ),
    ensures
        ({
            let taken = exists|k: int| 0 <= k < before.len() && (#[trigger] before[k]).label@ == label;
            &&& r is Ok <==> !taken && before.len() < 256
            &&& r is Err ==> after == before
            &&& taken ==> (r matches Err(Error::LabelTaken(named)) && named@ == label)
            &&& !taken && before.len() >= 256 ==> (r matches Err(Error::Full))
            &&& r matches Ok(machine) ==> {
                &&& machine.id == id
                &&& machine.label@ == label
                &&& machine.target@ == target
                &&& machine.enabled
                &&& after.len() == before.len() + 1
                &&& after.last().id == id
                &&& after.last().label@ == label
                &&& after.last().target@ == target
                &&& after.last().enabled
                &&& forall|k: int|
                    0 <= k < before.len() ==> (#[trigger] after[k]).id == before[k].id
                        && after[k].label@ == before[k].label@ && after[k].target@
                        == before[k].target@ && after[k].enabled == before[k].enabled
            }
        }),
{
    let list = machines::profiles(before);
    let taken = exists|k: int| 0 <= k < before.len() && (#[trigger] before[k]).label@ == label;
    if taken {
        let k = choose|k: int| 0 <= k < before.len() && (#[trigger] before[k]).label@ == label;
        assert(list[k].label == label);
    }
    if machines::has_label(list, label) {
        let k = choose|k: int| 0 <= k < list.len() && (#[trigger] list[k]).label == label;
        assert(before[k].label@ == label);
    }
    if r is Ok {
        let now = machines::profiles(after);
        assert(now.len() == after.len());
        assert(now.last() == after.last()@);
        assert forall|k: int| 0 <= k < before.len() implies (#[trigger] after[k]).id
            == before[k].id && after[k].label@ == before[k].label@ && after[k].target@
            == before[k].target@ && after[k].enabled == before[k].enabled by {
            assert(now[k] == list[k]);
            assert(now[k] == after[k]@);
        }
    }
}

/// The early check of an addition says what the addition would say.
pub proof fn law_the_early_check_foretells_the_addition(
    list: Seq<Profile>,
    id: u128,
    label: Seq<char>,
    target: Seq<char>,
)
    ensures
        match machines::refusal(list, label) {
            None => machines::added(list, id, label, target) is Ok,
            Some(error) => machines::added(list, id, label, target) == Err::<
                (Seq<Profile>, Profile, bool),
                ErrorModel,
            >(error),
        },
{
}

/// A renaming changes the label of one profile alone: the first that has the
/// identity of the profile that is meant. It succeeds exactly when a profile is
/// meant and no profile of another identity has the label, and tells whether the
/// label was another before.
pub proof fn law_a_renaming_changes_one_label(
    before: Seq<Machine>,
    after: Seq<Machine>,
    r: Result<Change, Error>,
    id: Option<u128>,
    selector: Seq<char>,
    label: Seq<char>,
)
    requires
        machines::changed(
            before,
            after,
            r,
            machines::renamed(machines::profiles(before), id, selector, label),
        ),
    ensures
        none_meant(before, id, selector) ==> after == before && (
        r matches Err(Error::NotFound(named)) && named@ == selector),
        forall|i: int| #[trigger]
            first_meant(before, id, selector, i) ==> {
                let taken = exists|j: int|
                    0 <= j < before.len() && (#[trigger] before[j]).id != before[i].id
                        && before[j].label@ == label;
                &&& taken ==> after == before && (r matches Err(Error::LabelTaken(named)) && named@
                    == label)
                &&& !taken ==> (r matches Ok(change) && exists|k: int|
                    {
                        &&& 0 <= k <= i
                        &&& (#[trigger] before[k]).id == before[i].id
                        &&& agree_but_for(before, after, k)
                        &&& after[k].id == before[k].id
                        &&& after[k].label@ == label
                        &&& after[k].target@ == before[k].target@
                        &&& after[k].enabled == before[k].enabled
                        &&& change.machine@ == after[k]@
                        &&& change.changed == (before[k].label@ != label)
                    })
            },
{
    let list = machines::profiles(before);
    lemma_selection_is_first_meant(before, id, selector);
    let at = machines::selection(list, id, selector);
    if at < before.len() {
        assert(first_meant(before, id, selector, at));
    }
    assert forall|i: int| #[trigger] first_meant(before, id, selector, i) implies {
        let taken = exists|j: int|
            0 <= j < before.len() && (#[trigger] before[j]).id != before[i].id && before[j].label@
                == label;
        &&& taken ==> after == before && (r matches Err(Error::LabelTaken(named)) && named@ == label)
        &&& !taken ==> (r matches Ok(change) && exists|k: int|
            {
                &&& 0 <= k <= i
                &&& (#[trigger] before[k]).id == before[i].id
                &&& agree_but_for(before, after, k)
                &&& after[k].id == before[k].id
                &&& after[k].label@ == label
                &&& after[k].target@ == before[k].target@
                &&& after[k].enabled == before[k].enabled
                &&& change.machine@ == after[k]@
                &&& change.changed == (before[k].label@ != label)
            })
    } by {
        assert(at == i);
        let taken = exists|j: int|
            0 <= j < before.len() && (#[trigger] before[j]).id != before[i].id && before[j].label@
                == label;
        if taken {
            let j = choose|j: int|
                0 <= j < before.len() && (#[trigger] before[j]).id != before[i].id
                    && before[j].label@ == label;
            assert(list[j].id != list[i].id && list[j].label == label);
        } else {
            assert forall|j: int| 0 <= j < list.len() implies !((#[trigger] list[j]).id
                != list[i].id && list[j].label == label) by {
                assert(list[j] == before[j]@);
            }
            machines::lemma_id_position_found(list, i);
            let k = machines::named(list, id, selector);
            let now = machines::profiles(after);
            assert(now == list.update(k, Profile { label, ..list[k] }));
            assert(after.len() == now.len());
            assert(list[k] == before[k]@);
            assert(now[k] == after[k]@);
            assert forall|j: int| 0 <= j < before.len() && j != k implies (#[trigger] after[j]).id
                == before[j].id && after[j].label@ == before[j].label@ && after[j].target@
                == before[j].target@ && after[j].enabled == before[j].enabled by {
                assert(now[j] == after[j]@);
                assert(list[j] == before[j]@);
            }
            assert(after.len() == now.len());
            assert(before[k].id == before[i].id);
        }
    }
}

/// A switch sets the flag of one profile alone: the first that has the identity of
/// the profile that is meant. It succeeds exactly when a profile is meant, and
/// tells whether the flag was another before.
pub proof fn law_a_switch_sets_one_flag(
    before: Seq<Machine>,
    after: Seq<Machine>,
    r: Result<Change, Error>,
    id: Option<u128>,
    selector: Seq<char>,
    enabled: bool,
)
    requires
        machines::changed(
            before,
            after,
            r,
            machines::switched(machines::profiles(before), id, selector, enabled),
        ),
    ensures
        none_meant(before, id, selector) ==> after == before && (
        r matches Err(Error::NotFound(named)) && named@ == selector),
        forall|i: int| #[trigger]
            first_meant(before, id, selector, i) ==> (r matches Ok(change) && exists|k: int|
                {
                    &&& 0 <= k <= i
                    &&& (#[trigger] before[k]).id == before[i].id
                    &&& agree_but_for(before, after, k)
                    &&& after[k].id == before[k].id
                    &&& after[k].label@ == before[k].label@
                    &&& after[k].target@ == before[k].target@
                    &&& after[k].enabled == enabled
                    &&& change.machine@ == after[k]@
                    &&& change.changed == (before[k].enabled != enabled)
                }),
{
    let list = machines::profiles(before);
    lemma_selection_is_first_meant(before, id, selector);
    let at = machines::selection(list, id, selector);
    if at < before.len() {
        assert(first_meant(before, id, selector, at));
    }
    assert forall|i: int| #[trigger] first_meant(before, id, selector, i) implies (
    r matches Ok(change) && exists|k: int|
        {
            &&& 0 <= k <= i
            &&& (#[trigger] before[k]).id == before[i].id
            &&& agree_but_for(before, after, k)
            &&& after[k].id == before[k].id
            &&& after[k].label@ == before[k].label@
            &&& after[k].target@ == before[k].target@
            &&& after[k].enabled == enabled
            &&& change.machine@ == after[k]@
            &&& change.changed == (before[k].enabled != enabled)
        }) by {
        machines::lemma_id_position_found(list, i);
        let k = machines::named(list, id, selector);
        let now = machines::profiles(after);
        assert(now == list.update(k, Profile { enabled, ..list[k] }));
        assert(after.len() == now.len());
        assert(list[k] == before[k]@);
        assert(now[k] == after[k]@);
        assert forall|j: int| 0 <= j < before.len() && j != k implies (#[trigger] after[j]).id
            == before[j].id && after[j].label@ == before[j].label@ && after[j].target@
            == before[j].target@ && after[j].enabled == before[j].enabled by {
            assert(now[j] == after[j]@);
            assert(list[j] == before[j]@);
        }
        assert(after.len() == now.len());
        assert(before[k].id == before[i].id);
    }
}

/// A removal takes one profile out: the first that has the identity of the profile
/// that is meant. It succeeds exactly when a profile is meant; the others stay as
/// they are, in order.
pub proof fn law_a_removal_takes_one_profile_out(
    before: Seq<Machine>,
    after: Seq<Machine>,
    r: Result<Machine, Error>,
    id: Option<u128>,
    selector: Seq<char>,
)
    requires
        machines::edited(
            before,
            after,
            r,
            machines::removed(machines::profiles(before), id, selector),
        ),
    ensures
        none_meant(before, id, selector) ==> after == before && (
        r matches Err(Error::NotFound(named)) && named@ == selector),
        forall|i: int| #[trigger]
            first_meant(before, id, selector, i) ==> (r matches Ok(machine) && exists|k: int|
                {
                    &&& 0 <= k <= i
                    &&& (#[trigger] before[k]).id == before[i].id
                    &&& machine@ == before[k]@
                    &&& after.len() == before.len() - 1
                    &&& forall|j: int|
                        0 <= j < after.len() ==> (#[trigger] after[j])@ == (if j < k {
                            before[j]@
                        } else {
                            before[j + 1]@
                        })
                }),
{
    let list = machines::profiles(before);
    lemma_selection_is_first_meant(before, id, selector);
    let at = machines::selection(list, id, selector);
    if at < before.len() {
        assert(first_meant(before, id, selector, at));
    }
    assert forall|i: int| #[trigger] first_meant(before, id, selector, i) implies (
    r matches Ok(machine) && exists|k: int|
        {
            &&& 0 <= k <= i
            &&& (#[trigger] before[k]).id == before[i].id
            &&& machine@ == before[k]@
            &&& after.len() == before.len() - 1
            &&& forall|j: int|
                0 <= j < after.len() ==> (#[trigger] after[j])@ == (if j < k {
                    before[j]@
                } else {
                    before[j + 1]@
                })
        }) by {
        machines::lemma_id_position_found(list, i);
        let k = machines::named(list, id, selector);
        let now = machines::profiles(after);
        assert(now == list.remove(k));
        assert(list[k] == before[k]@);
        assert(after.len() == now.len());
        assert forall|j: int| 0 <= j < after.len() implies (#[trigger] after[j])@ == (if j < k {
            before[j]@
        } else {
            before[j + 1]@
        }) by {
            assert(now[j] == after[j]@);
        }
        assert(before[k].id == before[i].id);
    }
}

} // verus!
