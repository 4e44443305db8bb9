//! Mirroring the static directory into the output: which files to copy, and where to.

use vstd::prelude::*;
use crate::asset_hash::{output_static_dir, relative};
use crate::config::{Config, RootStaticEntry};
use crate::error::StaticError;
use crate::paths::{is_segment, join, path_text, path_view, segments, SitePath};
use crate::text::{chars_of, push_str, str_eq, string_of};

verus! {

/// The size of a file and the time at which it was last changed, in
/// nanoseconds since the Unix epoch.
#[derive(Clone, Copy, Debug, PartialEq, Eq, Structural)]
pub struct FileStamp {
    pub size: u64,
    pub modified: u128,
}

/// A regular file found below the static directory.
#[derive(Debug)]
pub struct SourceFile {
    /// The path of the file from the static directory.
    pub relative_path: String,
    pub stamp: FileStamp,
    /// The stamp of the file at `static_destination` of this file, where one exists.
    pub destination: Option<FileStamp>,
}

/// One file to copy.
#[derive(Debug)]
pub struct CopyAction {
    pub from: String,
    pub to: String,
}

/// What a `CopyAction` holds, as texts.
pub struct CopyView {
    pub from: Seq<char>,
    pub to: Seq<char>,
}

impl View for CopyAction {
    type V = CopyView;

    open spec fn view(&self) -> CopyView {
        CopyView { from: self.from@, to: self.to@ }
    }
}

/// The views of the members of `v`.
pub open spec fn action_views(v: Seq<CopyAction>) -> Seq<CopyView> {
    v.map_values(|a: CopyAction| a@)
}

/// Some root file of `entries`, from `from` on, has `relative_path` as its source.
pub open spec fn is_root_source_from(entries: Seq<RootStaticEntry>, relative_path: Seq<char>, from: int) -> bool
    decreases entries.len() - from,
{
    if from < 0 || from >= entries.len() {
        false
    } else {
        entries[from].source@ == relative_path || is_root_source_from(
            entries,
            relative_path,
            from + 1,
        )
    }
}

/// The file at `relative_path` is the source of a root file.
pub open spec fn is_root_source(config: Config, relative_path: Seq<char>) -> bool {
    is_root_source_from(config.site.root_static@, relative_path, 0)
}

/// Whether the file at `relative_path` below the static directory is the
/// source of a root file. Such a file is not mirrored.
pub fn is_root_static(config: &Config, relative_path: &str) -> (r: bool)
    ensures
        r == is_root_source(*config, relative_path@),
{
    let entries = &config.site.root_static;
    let mut i: usize = 0;
    while i < entries.len()
        invariant
            i <= entries.len(),
            entries == &config.site.root_static,
            is_root_source(*config, relative_path@) == is_root_source_from(
                entries@,
                relative_path@,
                i as int,
            ),
        decreases entries.len() - i,
    {
        if str_eq(entries[i].source.as_str(), relative_path) {
            return true;
        }
        i += 1;
    }
    false
}

/// Where the mirror of the file at `relative_path` lies.
pub open spec fn mirror_of(output_dir: Seq<char>, relative_path: Seq<char>) -> Seq<char> {
    path_text(join(output_static_dir(output_dir), relative(segments(relative_path))))
}

/// Where the file at `relative_path` lies below the static directory.
pub open spec fn source_of(static_dir: Seq<char>, relative_path: Seq<char>) -> Seq<char> {
    path_text(join(path_view(static_dir), relative(segments(relative_path))))
}

/// The directory `static` below `output_dir`.
pub fn output_static_path(output_dir: &str) -> (r: SitePath)
    ensures
        r@ == output_static_dir(output_dir@),
        r.well_formed(),
{
    let name = chars_of("static");
    assert(is_segment(name@)) by {
        reveal_strlit("static");
    }
    SitePath::from_text(output_dir).push(name)
}

/// The path of the mirror of the file at `relative_path`: the same path
/// below the directory `static` of the output.
pub fn static_destination(output_dir: &str, relative_path: &str) -> (r: String)
    ensures
        r@ == mirror_of(output_dir@, relative_path@),
{
    let rel = SitePath::from_text(relative_path);
    let rel = SitePath { absolute: false, segments: rel.segments };
    output_static_path(output_dir).join(rel).to_text()
}

/// The path of the file at `relative_path` below the static directory.
pub fn static_source(static_dir: &str, relative_path: &str) -> (r: String)
    ensures
        r@ == source_of(static_dir@, relative_path@),
{
    let rel = SitePath::from_text(relative_path);
    let rel = SitePath { absolute: false, segments: rel.segments };
    SitePath::from_text(static_dir).join(rel).to_text()
}

/// The mirror is up to date: it exists, has the size of the source, and was
/// not changed before the source was.
pub open spec fn up_to_date(source: FileStamp, destination: Option<FileStamp>) -> bool {
    match destination {
        Some(d) => d.size == source.size && d.modified >= source.modified,
        None => false,
    }
}

/// Whether the mirror of a file is up to date, so that the copy can be left out.
pub fn is_unchanged(source: &FileStamp, destination: &Option<FileStamp>) -> (r: bool)
    ensures
        r == up_to_date(*source, *destination),
{
    match destination {
        Some(d) => d.size == source.size && d.modified >= source.modified,
        None => false,
    }
}

/// The copy to make for `file`, where one is to be made: none for the source
/// of a root file, none where the mirror is up to date.
pub open spec fn mirror_action(config: Config, file: SourceFile) -> Option<CopyView> {
    if is_root_source(config, file.relative_path@) || up_to_date(file.stamp, file.destination) {
        None
    } else {
        Some(
            CopyView {
                from: source_of(config.site.static_dir@, file.relative_path@),
                to: mirror_of(config.site.output_dir@, file.relative_path@),
            },
        )
    }
}

/// The copies to make for `files`, in their order.
pub open spec fn mirror_actions(config: Config, files: Seq<SourceFile>) -> Seq<CopyView>
    decreases files.len(),
{
    if files.len() == 0 {
        Seq::empty()
    } else {
        match mirror_action(config, files.last()) {
            Some(a) => mirror_actions(config, files.drop_last()).push(a),
            None => mirror_actions(config, files.drop_last()),
        }
    }
}

/// A cold run copies everything: where no file has a mirror yet, every file
/// that is not the source of a root file is copied, in the order of `files`.
pub proof fn lemma_cold_run_copies_all(config: Config, files: Seq<SourceFile>)
    requires
        forall|i: int|
            0 <= i < files.len() ==> (#[trigger] files[i]).destination is None && !is_root_source(
                config,
                files[i].relative_path@,
            ),
    ensures
        mirror_actions(config, files).len() == files.len(),
        forall|i: int|
            0 <= i < files.len() ==> #[trigger] mirror_actions(config, files)[i] == (CopyView {
                from: source_of(config.site.static_dir@, files[i].relative_path@),
                to: mirror_of(config.site.output_dir@, files[i].relative_path@),
            }),
    decreases files.len(),
{
    if files.len() > 0 {
        let head = files.drop_last();
        assert forall|i: int| 0 <= i < head.len() implies (#[trigger] head[i]).destination is None
            && !is_root_source(config, head[i].relative_path@) by {
            assert(head[i] == files[i]);
        }
        lemma_cold_run_copies_all(config, head);
        assert(files[files.len() - 1].destination is None);
        let before = mirror_actions(config, head);
        let all = mirror_actions(config, files);
        assert forall|i: int| 0 <= i < files.len() implies #[trigger] all[i] == (CopyView {
            from: source_of(config.site.static_dir@, files[i].relative_path@),
            to: mirror_of(config.site.output_dir@, files[i].relative_path@),
        }) by {
            if i < head.len() {
                assert(all[i] == before[i]);
                assert(head[i] == files[i]);
            }
        }
    }
}

/// Plans the mirroring of the static directory: a copy for every file of
/// `files` that is not the source of a root file and whose mirror is not up
/// to date. With no mirror yet, every such file is copied.
pub fn copy_static_files(config: &Config, files: &Vec<SourceFile>) -> (actions: Vec<CopyAction>)
    ensures
        action_views(actions@) == mirror_actions(*config, files@),
{
    let mut actions: Vec<CopyAction> = Vec::new();
    let mut i: usize = 0;
    assert(action_views(actions@) =~= mirror_actions(*config, files@.take(0)));
    while i < files.len()
        invariant
            i <= files.len(),
            action_views(actions@) == mirror_actions(*config, files@.take(i as int)),
        decreases files.len() - i,
    {
        let ghost upto = files@.take(i + 1);
        assert(upto.drop_last() == files@.take(i as int));
        assert(upto.last() == files[i as int]);
        let file = &files[i];
        if !is_root_static(config, file.relative_path.as_str()) && !is_unchanged(
            &file.stamp,
            &file.destination,
        ) {
            let action = CopyAction {
                from: static_source(config.site.static_dir.as_str(), file.relative_path.as_str()),
                to: static_destination(
                    config.site.output_dir.as_str(),
                    file.relative_path.as_str(),
                ),
            };
            let ghost before = action_views(actions@);
            actions.push(action);
            assert(action_views(actions@) =~= before.push(action@));
        }
        i += 1;
    }
    assert(files@.take(i as int) == files@);
    actions
}

/// Where the source of the root file `entry` lies.
pub open spec fn root_source(config: Config, entry: RootStaticEntry) -> Seq<char> {
    path_text(join(path_view(config.site.static_dir@), path_view(entry.source@)))
}

/// Where the root file `entry` is written.
pub open spec fn root_destination(config: Config, entry: RootStaticEntry) -> Seq<char> {
    path_text(join(path_view(config.site.output_dir@), path_view(entry.output_name@)))
}

/// The paths of the sources of the root files, in the order of the configuration.
pub open spec fn root_sources(config: Config) -> Seq<Seq<char>> {
    config.site.root_static@.map_values(|e: RootStaticEntry| root_source(config, e))
}

/// The copies that put the root files in place, in the order of the configuration.
pub open spec fn root_actions(config: Config) -> Seq<CopyView> {
    config.site.root_static@.map_values(
        |e: RootStaticEntry|
            CopyView { from: root_source(config, e), to: root_destination(config, e) },
    )
}

/// The index of the first `false` in `present`, from `from` on.
pub open spec fn first_missing_from(present: Seq<bool>, from: int) -> Option<int>
    decreases present.len() - from,
{
    if from < 0 || from >= present.len() {
        None
    } else if !present[from] {
        Some(from)
    } else {
        first_missing_from(present, from + 1)
    }
}

/// What the error for a missing root file says.
pub open spec fn missing_root_message(path: Seq<char>) -> Seq<char> {
    "Root static file not found: \""@ + path + "\""@
}

/// The path of the source of a root file.
pub fn root_static_source(config: &Config, entry: &RootStaticEntry) -> (r: String)
    ensures
        r@ == root_source(*config, *entry),
{
    SitePath::from_text(config.site.static_dir.as_str()).join(
        SitePath::from_text(entry.source.as_str()),
    ).to_text()
}

/// The paths of the sources of the root files. Each is to be looked for
/// before `copy_root_static_files` is asked for the copies.
pub fn root_static_sources(config: &Config) -> (r: Vec<String>)
    ensures
        crate::asset_hash::string_views(r@) == root_sources(*config),
{
    let entries = &config.site.root_static;
    let mut r: Vec<String> = Vec::new();
    let mut i: usize = 0;
    while i < entries.len()
        invariant
            i <= entries.len(),
            entries == &config.site.root_static,
            crate::asset_hash::string_views(r@) == root_sources(*config).take(i as int),
        decreases entries.len() - i,
    {
        let source = root_static_source(config, &entries[i]);
        let ghost before = crate::asset_hash::string_views(r@);
        r.push(source);
        assert(crate::asset_hash::string_views(r@) =~= before.push(source@));
        assert(crate::asset_hash::string_views(r@) =~= root_sources(*config).take(i + 1));
        i += 1;
    }
    assert(root_sources(*config).take(i as int) == root_sources(*config));
    r
}

/// Plans the copying of the root files: one copy for each, from its source
/// below the static directory to its name in the output directory.
/// `present` says of each root file, in the order of the configuration,
/// whether its source exists. A source that is missing is an error: the
/// first one missing is reported, and nothing is copied.
pub fn copy_root_static_files(config: &Config, present: &Vec<bool>) -> (r: Result<
    Vec<CopyAction>,
    StaticError,
>)
    requires
        present.len() == config.site.root_static.len(),
    ensures
        match r {
            Ok(actions) => first_missing_from(present@, 0) is None && action_views(actions@)
                == root_actions(*config),
            Err(StaticError::Io { path, message }) => first_missing_from(present@, 0) matches Some(
                i,
            ) && 0 <= i < config.site.root_static.len() && path@ == root_source(
                *config,
                config.site.root_static[i],
            ) && message@ == missing_root_message(path@),
        },
{
    let entries = &config.site.root_static;
    let mut actions: Vec<CopyAction> = Vec::new();
    let mut i: usize = 0;
    while i < entries.len()
        invariant
            i <= entries.len(),
            entries == &config.site.root_static,
            present.len() == entries.len(),
            first_missing_from(present@, 0) == first_missing_from(present@, i as int),
            action_views(actions@) == root_actions(*config).take(i as int),
        decreases entries.len() - i,
    {
        let from = root_static_source(config, &entries[i]);
        if !present[i] {
            let mut message: Vec<char> = Vec::new();
            push_str(&mut message, "Root static file not found: \"");
            push_str(&mut message, from.as_str());
            push_str(&mut message, "\"");
            assert(message@ == missing_root_message(from@)) by {
                assert(Seq::<char>::empty() + "Root static file not found: \""@
                    == "Root static file not found: \""@);
            }
            return Err(StaticError::Io { path: from, message: string_of(message.as_slice()) });
        }
        let to = SitePath::from_text(config.site.output_dir.as_str()).join(
            SitePath::from_text(entries[i].output_name.as_str()),
        ).to_text();
        let action = CopyAction { from, to };
        let ghost before = action_views(actions@);
        actions.push(action);
        assert(action_views(actions@) =~= before.push(action@));
        assert(action_views(actions@) =~= root_actions(*config).take(i + 1));
        i += 1;
    }
    assert(root_actions(*config).take(i as int) == root_actions(*config));
    Ok(actions)
}

/// The copies of a whole synchronisation: those that mirror the static
/// directory, where it exists, and then those that put the root files in
/// place.
pub open spec fn sync_actions(config: Config, static_dir_exists: bool, files: Seq<SourceFile>) -> Seq<
    CopyView,
> {
    if static_dir_exists {
        mirror_actions(config, files) + root_actions(config)
    } else {
        root_actions(config)
    }
}

/// Plans the synchronisation of the static files as a whole: the mirror of
/// the static directory and the root files. `static_dir_exists` says
/// whether there is a static directory; without one nothing is mirrored and
/// `files` is not looked at. The root files are asked for either way: a
/// root file whose source is missing is an error, also where the whole
/// static directory is missing, and then nothing is copied at all.
pub fn sync_static(
    config: &Config,
    static_dir_exists: bool,
    files: &Vec<SourceFile>,
    present: &Vec<bool>,
) -> (r: Result<Vec<CopyAction>, StaticError>)
    requires
        present.len() == config.site.root_static.len(),
    ensures
        match r {
            Ok(actions) => first_missing_from(present@, 0) is None && action_views(actions@)
                == sync_actions(*config, static_dir_exists, files@),
            Err(StaticError::Io { path, message }) => first_missing_from(present@, 0) matches Some(
                i,
            ) && 0 <= i < config.site.root_static.len() && path@ == root_source(
                *config,
                config.site.root_static[i],
            ) && message@ == missing_root_message(path@),
        },
{
    let mut roots = match copy_root_static_files(config, present) {
        Ok(roots) => roots,
        Err(e) => {
            return Err(e);
        },
    };
    if !static_dir_exists {
        return Ok(roots);
    }
    let mut actions = copy_static_files(config, files);
    let ghost mirrored = action_views(actions@);
    let ghost rooted = action_views(roots@);
    actions.append(&mut roots);
    assert(action_views(actions@) =~= mirrored + rooted);
    Ok(actions)
}

} // verus!
