//! What holds of every repackaging.

use crate::codec::{parsed_manifest, renamed_manifest};
use crate::entry::{EntryView, ReadEndView};
use crate::error::Failure;
use crate::manifest::edited_manifest;
use crate::name::{inferred_name, is_name_split, lemma_inferred_name_is_prefix, resolved_name};
use crate::path::{in_library_source, is_manifest, is_source, lies_under, moved, Route};
use crate::plan::{plan_for, stem, PlanView};
use crate::text::{
    is_last_byte, lemma_replaced_absent, lemma_replaced_first, occurs_in, replaced, DASH, DOT,
};
use crate::transcode::{
    converted, entry_route, holds_manifest, lemma_failure_stays, repackaged_entries, transcoded,
};
use vstd::prelude::*;

verus! {

/// A byte that a string holds has a last place in it.
proof fn lemma_last_byte_exists(hay: Seq<u8>, byte: u8, at: int) -> (last: int)
    requires
        0 <= at < hay.len(),
        hay[at] == byte,
    ensures
        at <= last,
        is_last_byte(hay, byte, last),
    decreases hay.len() - at,
{
    if exists|j: int| at < j < hay.len() && hay[j] == byte {
        let j = choose|j: int| at < j < hay.len() && hay[j] == byte;
        lemma_last_byte_exists(hay, byte, j)
    } else {
        at
    }
}

/// A walk that succeeds converts every entry, and the archive writer takes
/// what each entry becomes: as many entries are written as were read, in
/// the same order.
pub proof fn lemma_every_entry_is_written(entries: Seq<EntryView>, plan: PlanView, i: int)
    requires
        transcoded(entries, plan) is Ok,
        0 <= i < entries.len(),
    ensures
        transcoded(entries, plan)->Ok_0.len() == entries.len(),
        converted(entries[i], plan) == Ok::<EntryView, Failure>(transcoded(entries, plan)->Ok_0[i]),
    decreases entries.len(),
{
    let front = entries.drop_last();
    assert(transcoded(front, plan) is Ok);
    let written = transcoded(front, plan)->Ok_0;
    lemma_written_len(front, plan);
    assert(transcoded(entries, plan)->Ok_0 == written.push(converted(entries.last(), plan)->Ok_0));
    if i < front.len() {
        lemma_every_entry_is_written(front, plan, i);
        assert(front[i] == entries[i]);
    } else {
        assert(entries[i] == entries.last());
    }
}

/// A walk that succeeds writes as many entries as it read.
proof fn lemma_written_len(entries: Seq<EntryView>, plan: PlanView)
    requires
        transcoded(entries, plan) is Ok,
    ensures
        transcoded(entries, plan)->Ok_0.len() == entries.len(),
    decreases entries.len(),
{
    if entries.len() > 0 {
        lemma_written_len(entries.drop_last(), plan);
    }
}

/// A walk that succeeds got past every entry before any given one.
pub proof fn lemma_walk_got_past(entries: Seq<EntryView>, plan: PlanView, upto: int)
    requires
        transcoded(entries, plan) is Ok,
        0 <= upto <= entries.len(),
    ensures
        transcoded(entries.take(upto), plan) is Ok,
    decreases entries.len() - upto,
{
    if upto == entries.len() {
        assert(entries.take(upto) =~= entries);
    } else {
        lemma_walk_got_past(entries, plan, upto + 1);
        assert(entries.take(upto + 1).drop_last() =~= entries.take(upto));
    }
}

/// The first failure ends the walk: where the entries before one are
/// written and that one fails, the walk fails as that entry does.
pub proof fn lemma_first_failure_wins(entries: Seq<EntryView>, plan: PlanView, i: int)
    requires
        0 <= i < entries.len(),
        transcoded(entries.take(i), plan) is Ok,
        converted(entries[i], plan) is Err,
    ensures
        transcoded(entries, plan) == Err::<Seq<EntryView>, Failure>(
            converted(entries[i], plan)->Err_0,
        ),
    decreases entries.len() - i,
{
    assert(entries.take(i + 1).drop_last() =~= entries.take(i));
    assert(entries.take(i + 1).last() == entries[i]);
    lemma_failure_stays(entries, plan, i + 1);
}

/// Where the old name stands in the file name at the front only, renaming
/// exchanges the name and keeps the version: the package directory is the
/// old name with the version behind it, the new package directory is the
/// new name with that same version, and the new file name is the new name
/// with what followed the old one. The version begins with the dash.
pub proof fn lemma_new_directory_keeps_version(file: Seq<u8>, new_name: Seq<u8>)
    requires
        inferred_name(file) is Some,
        !occurs_in(
            file.subrange(inferred_name(file)->0.len() as int, file.len() as int),
            inferred_name(file)->0,
        ),
    ensures
        ({
            let old_name = inferred_name(file)->0;
            let plan = plan_for(file, old_name, new_name);
            let version = stem(file).subrange(old_name.len() as int, stem(file).len() as int);
            &&& plan.base == old_name + version
            &&& plan.new_base == new_name + version
            &&& plan.file_name == new_name + file.subrange(
                old_name.len() as int,
                file.len() as int,
            )
            &&& version.len() >= 2
            &&& version[0] == DASH
        }),
{
    let old_name = inferred_name(file)->0;
    let (dash, dot) = choose|dash: int, dot: int| is_name_split(file, dash, dot);
    lemma_inferred_name_is_prefix(file);
    let rest = file.subrange(dash, file.len() as int);
    lemma_replaced_first(file, old_name, new_name, 0);
    lemma_replaced_absent(rest, old_name, new_name);
    assert(file.subrange(0, 0) + new_name =~= new_name);
    let renamed = new_name + rest;
    assert(replaced(file, old_name, new_name) == renamed);
    let last = lemma_last_byte_exists(file, DOT, dot);
    assert(0 < last && is_last_byte(file, DOT, last));
    let chosen = choose|d: int| 0 < d && is_last_byte(file, DOT, d);
    assert(chosen == last);
    let version = file.subrange(dash, last);
    assert(stem(file) == file.subrange(0, last));
    assert(stem(file) =~= old_name + version);
    assert(stem(file).subrange(old_name.len() as int, stem(file).len() as int) =~= version);
    let new_last = new_name.len() + last - dash;
    assert(renamed[new_last] == file[last]);
    assert forall|j: int| new_last < j < renamed.len() implies renamed[j] != DOT by {
        assert(renamed[j] == file[j - new_name.len() + dash]);
    }
    assert(0 < new_last && is_last_byte(renamed, DOT, new_last));
    let new_chosen = choose|d: int| 0 < d && is_last_byte(renamed, DOT, d);
    assert(new_chosen == new_last);
    assert(stem(renamed) =~= new_name + version);
    assert(version[0] == file[dash]);
}

/// Every entry of the new archive lies under the new package directory as
/// the entry that it was made from lay under the old one: with the same
/// path below the directory.
pub proof fn lemma_entries_move_with_the_package(entries: Seq<EntryView>, plan: PlanView, i: int)
    requires
        transcoded(entries, plan) is Ok,
        0 <= i < entries.len(),
    ensures
        ({
            let written = transcoded(entries, plan)->Ok_0;
            let below = entries[i].path.subrange(
                plan.base.len() as int,
                entries[i].path.len() as int,
            );
            &&& lies_under(entries[i].path, plan.base)
            &&& entries[i].path == plan.base + below
            &&& written[i].path == plan.new_base + below
            &&& lies_under(written[i].path, plan.new_base)
        }),
{
    lemma_every_entry_is_written(entries, plan, i);
    let path = entries[i].path;
    let below = path.subrange(plan.base.len() as int, path.len() as int);
    assert(path =~= plan.base + below);
    let target = plan.new_base + below;
    assert(target.subrange(0, plan.new_base.len() as int) =~= plan.new_base);
    if path.len() > plan.base.len() {
        assert(target[plan.new_base.len() as int] == below[0]);
    }
}

/// An entry that is neither the manifest nor a source file outside the
/// library is kept: the new archive holds it with the header and the content
/// that it had.
pub proof fn lemma_other_entries_are_kept(entries: Seq<EntryView>, plan: PlanView, i: int)
    requires
        transcoded(entries, plan) is Ok,
        0 <= i < entries.len(),
        ({
            let path = moved(entries[i].path, plan.base, plan.new_base);
            let inner = path.subrange(plan.new_base.len() as int, path.len() as int);
            !is_manifest(path) && !(is_source(path) && !in_library_source(inner))
        }),
    ensures
        transcoded(entries, plan)->Ok_0[i].data == entries[i].data,
        transcoded(entries, plan)->Ok_0[i].header == entries[i].header,
{
    lemma_every_entry_is_written(entries, plan, i);
}

/// A source file that does not name the crate in a path comes through with
/// the content that it had.
pub proof fn lemma_silent_sources_are_kept(entries: Seq<EntryView>, plan: PlanView, i: int)
    requires
        transcoded(entries, plan) is Ok,
        0 <= i < entries.len(),
        entry_route(entries[i], plan) == Route::Source,
        !occurs_in(entries[i].data, plan.from),
    ensures
        transcoded(entries, plan)->Ok_0[i].data == entries[i].data,
{
    lemma_every_entry_is_written(entries, plan, i);
    lemma_replaced_absent(entries[i].data, plan.from, plan.to);
}

/// The manifest of the new archive is what the manifest writer makes of the
/// old manifest under the new name, and the old manifest declared the old
/// name and no workspace.
pub proof fn lemma_manifest_is_renamed(entries: Seq<EntryView>, plan: PlanView, i: int)
    requires
        transcoded(entries, plan) is Ok,
        0 <= i < entries.len(),
        entry_route(entries[i], plan) == Route::Manifest,
    ensures
        renamed_manifest(entries[i].data, plan.new_name) == Some(
            transcoded(entries, plan)->Ok_0[i].data,
        ),
        parsed_manifest(entries[i].data) matches Some(summary) && !summary.is_workspace
            && summary.package_name == Some(plan.old_name),
{
    lemma_every_entry_is_written(entries, plan, i);
}

/// A name that the caller gives is accepted only where the file name goes
/// on behind it with a dash, digits and the first dot: that the file name
/// begins with the name is not enough.
pub proof fn lemma_given_name_ends_at_version(file: Seq<u8>, given: Seq<u8>)
    requires
        resolved_name(file, Some(given)) is Ok,
    ensures
        resolved_name(file, Some(given)) == Ok::<Seq<u8>, Failure>(given),
        exists|dot: int| is_name_split(file, given.len() as int, dot),
        file.subrange(0, given.len() as int) == given,
{
    let (dash, dot) = choose|dash: int, dot: int| is_name_split(file, dash, dot);
    assert(is_name_split(file, given.len() as int, dot));
}

/// A name that the file name only begins with is refused: where the file
/// name shows a longer name, the given name fails with the mismatch.
pub proof fn lemma_prefix_is_refused(file: Seq<u8>, given: Seq<u8>)
    requires
        inferred_name(file) is Some,
        given.len() < inferred_name(file)->0.len(),
    ensures
        resolved_name(file, Some(given)) == Err::<Seq<u8>, Failure>(
            Failure::NameMismatch { found: inferred_name(file), expected: given },
        ),
{
}

/// A manifest with a workspace is refused as such, whatever package it
/// names.
pub proof fn lemma_workspace_manifest_is_refused(
    manifest: Seq<u8>,
    old_name: Seq<u8>,
    new_name: Seq<u8>,
)
    requires
        parsed_manifest(manifest) matches Some(summary) && summary.is_workspace,
    ensures
        edited_manifest(manifest, old_name, new_name) == Err::<Seq<u8>, Failure>(
            Failure::WorkspaceNotSupported,
        ),
{
}

/// An archive whose manifest has a workspace is refused as such, provided
/// that the walk gets as far as the manifest.
pub proof fn lemma_workspace_archive_is_refused(
    entries: Seq<EntryView>,
    end: ReadEndView,
    plan: PlanView,
    i: int,
)
    requires
        0 <= i < entries.len(),
        transcoded(entries.take(i), plan) is Ok,
        lies_under(entries[i].path, plan.base),
        entry_route(entries[i], plan) == Route::Manifest,
        parsed_manifest(entries[i].data) matches Some(summary) && summary.is_workspace,
    ensures
        repackaged_entries(entries, end, plan) == Err::<Seq<EntryView>, Failure>(
            Failure::WorkspaceNotSupported,
        ),
{
    lemma_first_failure_wins(entries, plan, i);
}

/// An archive without a manifest is never repackaged. Where every entry is
/// written and the archive was read to its end, it fails for want of the
/// manifest.
pub proof fn lemma_missing_manifest_fails(entries: Seq<EntryView>, end: ReadEndView, plan: PlanView)
    requires
        !holds_manifest(entries, plan),
    ensures
        repackaged_entries(entries, end, plan) is Err,
        transcoded(entries, plan) is Ok && end is Complete ==> repackaged_entries(entries, end, plan)
            == Err::<Seq<EntryView>, Failure>(Failure::MissingManifest),
{
}

/// An archive is repackaged only where it was read to its end, where every
/// entry was written, and where the manifest was among the entries.
pub proof fn lemma_success_is_complete(entries: Seq<EntryView>, end: ReadEndView, plan: PlanView)
    requires
        repackaged_entries(entries, end, plan) is Ok,
    ensures
        end is Complete,
        holds_manifest(entries, plan),
        repackaged_entries(entries, end, plan) == transcoded(entries, plan),
{
}

} // verus!
