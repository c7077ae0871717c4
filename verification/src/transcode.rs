//! The walk over the archive: every entry is moved to the new package
//! directory and, by its route, renamed, rewritten or kept, and is appended
//! to the new archive in the order in which it was read.

use crate::codec::{
    appendable, appended, archive_image, header_with_checksum, header_with_size,
    set_header_checksum, set_header_size, writer_append, writer_finish, writer_new,
    ArchiveWriter,
};
use crate::entry::{views, Entry, EntryView, ReadEnd, ReadEndView};
use crate::error::{Error, Failure, Stage};
use crate::manifest::{edit_manifest, edited_manifest};
use crate::path::{moved, rewrite_path, rewritten_path, route, routed, Route};
use crate::plan::{Plan, PlanView};
use crate::source::{rewrite_source, rewritten_source};
use vstd::prelude::*;

verus! {

/// The step at which an entry of the given route is appended.
pub open spec fn append_stage(route: Route) -> Stage {
    match route {
        Route::Manifest => Stage::AppendManifest,
        Route::Source => Stage::AppendSource,
        Route::Passthrough => Stage::AppendUnmodified,
    }
}

/// The route of `entry` under `plan`, once it is moved.
pub open spec fn entry_route(entry: EntryView, plan: PlanView) -> Route {
    routed(moved(entry.path, plan.base, plan.new_base), plan.new_base.len() as int)
}

/// What `entry` becomes under `plan`. It is moved to the new package
/// directory. A manifest is renamed, and its header gets the new size and
/// the checksum that goes with it; a source file outside the library is
/// rewritten, and its header gets the new size; any other entry keeps its
/// header and its content.
pub open spec fn converted(entry: EntryView, plan: PlanView) -> Result<EntryView, Failure> {
    match rewritten_path(entry.path, plan.base, plan.new_base) {
        Err(failure) => Err(failure),
        Ok(path) => match routed(path, plan.new_base.len() as int) {
            Route::Manifest => match edited_manifest(entry.data, plan.old_name, plan.new_name) {
                Err(failure) => Err(failure),
                Ok(data) => Ok(
                    EntryView {
                        header: header_with_checksum(
                            header_with_size(entry.header, data.len() as u64),
                        ),
                        path,
                        data,
                    },
                ),
            },
            Route::Source => match rewritten_source(entry.data, plan.from, plan.to) {
                Err(failure) => Err(failure),
                Ok(data) => Ok(
                    EntryView {
                        header: header_with_size(entry.header, data.len() as u64),
                        path,
                        data,
                    },
                ),
            },
            Route::Passthrough => Ok(EntryView { header: entry.header, path, data: entry.data }),
        },
    }
}

/// What is appended for `entries` under `plan`: what each entry becomes, in
/// the order of the entries. The first entry that cannot be converted, or
/// that the archive writer does not take, ends the walk with its failure.
pub open spec fn transcoded(entries: Seq<EntryView>, plan: PlanView) -> Result<
    Seq<EntryView>,
    Failure,
>
    decreases entries.len(),
{
    if entries.len() == 0 {
        Ok(Seq::empty())
    } else {
        match transcoded(entries.drop_last(), plan) {
            Err(failure) => Err(failure),
            Ok(written) => match converted(entries.last(), plan) {
                Err(failure) => Err(failure),
                Ok(entry) => if appendable(entry.header, entry.path) {
                    Ok(written.push(entry))
                } else {
                    Err(Failure::Codec { stage: append_stage(entry_route(entries.last(), plan)) })
                },
            },
        }
    }
}

/// True when one of `entries` is routed as the manifest under `plan`.
pub open spec fn holds_manifest(entries: Seq<EntryView>, plan: PlanView) -> bool {
    exists|i: int| 0 <= i < entries.len() && entry_route(#[trigger] entries[i], plan) == Route::Manifest
}

/// The step at which the content of an entry of the given route is read: a
/// manifest and a source file are read before they are changed, any other
/// entry as it is appended.
pub open spec fn read_stage(route: Route) -> Stage {
    match route {
        Route::Manifest => Stage::ReadManifest,
        Route::Source => Stage::ReadSource,
        Route::Passthrough => Stage::AppendUnmodified,
    }
}

/// What the end of the walk over the old archive comes to under `plan`. A
/// walk that broke off fails. Where it broke off at the content of an entry,
/// that entry is moved and routed first, and fails as it would have failed
/// before its content was read, or else where its content is read.
pub open spec fn walk_verdict(end: ReadEndView, plan: PlanView) -> Result<(), Failure> {
    match end {
        ReadEndView::Complete => Ok(()),
        ReadEndView::BrokenWalk => Err(Failure::Codec { stage: Stage::WalkEntries }),
        ReadEndView::BrokenEntry { path } => match rewritten_path(path, plan.base, plan.new_base) {
            Err(failure) => Err(failure),
            Ok(target) => Err(
                Failure::Codec { stage: read_stage(routed(target, plan.new_base.len() as int)) },
            ),
        },
    }
}

/// The entries of the new archive for the entries that were read from the
/// old one. `end` says how reading the old archive ended; an archive that
/// was not read to its end fails once the entries that were read are
/// through. An archive without a manifest fails last.
pub open spec fn repackaged_entries(entries: Seq<EntryView>, end: ReadEndView, plan: PlanView) -> Result<
    Seq<EntryView>,
    Failure,
> {
    match transcoded(entries, plan) {
        Err(failure) => Err(failure),
        Ok(written) => match walk_verdict(end, plan) {
            Err(failure) => Err(failure),
            Ok(()) => if !holds_manifest(entries, plan) {
                Err(Failure::MissingManifest)
            } else {
                Ok(written)
            },
        },
    }
}

/// The new archive for the entries that were read from the old one: the
/// image of [`repackaged_entries`].
pub open spec fn repackaged_archive(entries: Seq<EntryView>, end: ReadEndView, plan: PlanView) -> Result<
    Seq<u8>,
    Failure,
> {
    match repackaged_entries(entries, end, plan) {
        Err(failure) => Err(failure),
        Ok(written) => match archive_image(written) {
            Some(image) => Ok(image),
            None => Err(Failure::Codec { stage: Stage::Finish }),
        },
    }
}

/// Converts `entry` under `plan`, and says by which route.
pub fn convert(entry: Entry, plan: &Plan) -> (out: Result<(Entry, Route), Error>)
    ensures
        match converted(entry@, plan@) {
            Ok(target) => out matches Ok(pair) && pair.0@ == target && pair.1 == entry_route(
                entry@,
                plan@,
            ),
            Err(failure) => out matches Err(e) && e@ == failure,
        },
{
    let (header, old_path, data) = entry.into_parts();
    let path = match rewrite_path(
        old_path.as_slice(),
        plan.base.as_slice(),
        plan.new_base.as_slice(),
    ) {
        Ok(path) => path,
        Err(e) => {
            return Err(e);
        },
    };
    assert(path@.len() >= plan@.new_base.len());
    let chosen = route(path.as_slice(), plan.new_base.len());
    match chosen {
        Route::Manifest => {
            let edited = match edit_manifest(
                data.as_slice(),
                plan.old_name.as_slice(),
                plan.new_name.as_slice(),
            ) {
                Ok(edited) => edited,
                Err(e) => {
                    return Err(e);
                },
            };
            let sized = set_header_size(header.as_slice(), edited.len() as u64);
            let summed = set_header_checksum(sized.as_slice());
            Ok((Entry::assemble(summed, path, edited), chosen))
        },
        Route::Source => {
            let rewritten = match rewrite_source(
                data.as_slice(),
                plan.from.as_slice(),
                plan.to.as_slice(),
            ) {
                Ok(rewritten) => rewritten,
                Err(e) => {
                    return Err(e);
                },
            };
            let sized = set_header_size(header.as_slice(), rewritten.len() as u64);
            Ok((Entry::assemble(sized, path, rewritten), chosen))
        },
        Route::Passthrough => Ok((Entry::assemble(header, path, data), chosen)),
    }
}

/// Converts `entries` one by one and appends each to `writer`. Says whether
/// the manifest was among them.
fn transcode(entries: Vec<Entry>, plan: &Plan, writer: &mut ArchiveWriter) -> (seen: Result<
    bool,
    Error,
>)
    ensures
        match transcoded(views(entries@), plan@) {
            Ok(written) => seen matches Ok(found) && found == holds_manifest(
                views(entries@),
                plan@,
            ) && appended(*final(writer)) == appended(*old(writer)) + written,
            Err(failure) => seen matches Err(e) && e@ == failure,
        },
{
    let ghost all = views(entries@);
    let ghost before = appended(*writer);
    let mut found = false;
    for entry in walk: entries
        invariant
            walk.seq() == entries@,
            all == views(entries@),
            match transcoded(all.take(walk.index() as int), plan@) {
                Ok(written) => appended(*writer) == before + written,
                Err(_) => false,
            },
            found == holds_manifest(all.take(walk.index() as int), plan@),
    {
        let ghost at = walk.index() as int;
        proof {
            assert(all.take(at + 1).drop_last() =~= all.take(at));
            assert(all.take(at + 1).last() == entry@);
            lemma_holds_manifest_push(all.take(at + 1), plan@);
        }
        let (target, chosen) = match convert(entry, plan) {
            Ok(pair) => pair,
            Err(e) => {
                proof {
                    lemma_failure_stays(all, plan@, at + 1);
                }
                return Err(e);
            },
        };
        if !writer_append(writer, target.header(), target.path(), target.data()) {
            proof {
                lemma_failure_stays(all, plan@, at + 1);
            }
            return Err(Error::Codec { stage: stage_of(chosen) });
        }
        if chosen == Route::Manifest {
            found = true;
        }
        proof {
            let written = transcoded(all.take(at), plan@)->Ok_0;
            assert(before + written.push(target@) =~= (before + written).push(target@));
        }
    }
    proof {
        assert(all.take(all.len() as int) =~= all);
    }
    Ok(found)
}

/// The step at which an entry of the given route is appended.
fn stage_of(route: Route) -> (stage: Stage)
    ensures
        stage == append_stage(route),
{
    match route {
        Route::Manifest => Stage::AppendManifest,
        Route::Source => Stage::AppendSource,
        Route::Passthrough => Stage::AppendUnmodified,
    }
}

/// A walk that has failed on the first `upto` entries fails in the same way
/// on all of them.
pub proof fn lemma_failure_stays(entries: Seq<EntryView>, plan: PlanView, upto: int)
    requires
        0 <= upto <= entries.len(),
        transcoded(entries.take(upto), plan) is Err,
    ensures
        transcoded(entries, plan) == transcoded(entries.take(upto), plan),
    decreases entries.len() - upto,
{
    if upto == entries.len() {
        assert(entries.take(upto) =~= entries);
    } else {
        assert(entries.take(upto + 1).drop_last() =~= entries.take(upto));
        lemma_failure_stays(entries, plan, upto + 1);
    }
}

/// The manifest is among some entries when it is the last of them or among
/// those before.
proof fn lemma_holds_manifest_push(entries: Seq<EntryView>, plan: PlanView)
    requires
        entries.len() > 0,
    ensures
        holds_manifest(entries, plan) == (holds_manifest(entries.drop_last(), plan) || entry_route(
            entries.last(),
            plan,
        ) == Route::Manifest),
{
    let front = entries.drop_last();
    if holds_manifest(entries, plan) {
        let i = choose|i: int|
            0 <= i < entries.len() && entry_route(#[trigger] entries[i], plan) == Route::Manifest;
        if i < front.len() {
            assert(front[i] == entries[i]);
        }
    }
    if holds_manifest(front, plan) {
        let i = choose|i: int|
            0 <= i < front.len() && entry_route(#[trigger] front[i], plan) == Route::Manifest;
        assert(entries[i] == front[i]);
    }
    if entry_route(entries.last(), plan) == Route::Manifest {
        assert(entries[entries.len() - 1] == entries.last());
    }
}

/// Says what the end of the walk over the old archive comes to.
pub fn end_walk(end: &ReadEnd, plan: &Plan) -> (verdict: Result<(), Error>)
    ensures
        match walk_verdict(end@, plan@) {
            Ok(()) => verdict is Ok,
            Err(failure) => verdict matches Err(e) && e@ == failure,
        },
{
    match end {
        ReadEnd::Complete => Ok(()),
        ReadEnd::BrokenWalk => Err(Error::Codec { stage: Stage::WalkEntries }),
        ReadEnd::BrokenEntry { path } => {
            let target = match rewrite_path(
                path.as_slice(),
                plan.base.as_slice(),
                plan.new_base.as_slice(),
            ) {
                Ok(target) => target,
                Err(e) => {
                    return Err(e);
                },
            };
            assert(target@.len() >= plan@.new_base.len());
            let stage = match route(target.as_slice(), plan.new_base.len()) {
                Route::Manifest => Stage::ReadManifest,
                Route::Source => Stage::ReadSource,
                Route::Passthrough => Stage::AppendUnmodified,
            };
            Err(Error::Codec { stage })
        },
    }
}

/// Repackages the entries that were read from an archive: converts them one
/// by one under `plan` and writes the new archive. `end` says how reading
/// the archive ended.
pub fn repackage(entries: Vec<Entry>, end: ReadEnd, plan: &Plan) -> (archive: Result<
    Vec<u8>,
    Error,
>)
    ensures
        match repackaged_archive(views(entries@), end@, plan@) {
            Ok(image) => archive matches Ok(bytes) && bytes@ == image,
            Err(failure) => archive matches Err(e) && e@ == failure,
        },
{
    let mut writer = writer_new();
    let found = match transcode(entries, plan, &mut writer) {
        Ok(found) => found,
        Err(e) => {
            return Err(e);
        },
    };
    match end_walk(&end, plan) {
        Ok(()) => {},
        Err(e) => {
            return Err(e);
        },
    }
    if !found {
        return Err(Error::MissingManifest);
    }
    proof {
        let written = transcoded(views(entries@), plan@)->Ok_0;
        assert(Seq::<EntryView>::empty() + written =~= written);
    }
    match writer_finish(writer) {
        Some(bytes) => Ok(bytes),
        None => Err(Error::Codec { stage: Stage::Finish }),
    }
}

} // verus!
